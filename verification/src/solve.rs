//! Solving a game that is played elsewhere: the hints already seen, written
//! as `name:row`, the player seeded with them, and what to tell the user next.

use vstd::prelude::*;
use vstd::string::StrSliceExecFns;

use crate::data::{views, Sinner, SinnerView};
use crate::guess::{Guess, HintRow};
use crate::notation::{parse_row, read_row};
use crate::play::{best_index, is_best, narrowed, OptimalPlayer, Player};
use crate::text::{
    chars_of, find_char, first_index_of, matches_ignoring_ascii_case, same_ignoring_ascii_case,
    trim, trim_bounds,
};

verus! {

/// A guess that was played and the hint it was answered by.
#[derive(Debug)]
pub struct NameAndGuess {
    pub name: String,
    pub guess: Guess,
}

impl View for NameAndGuess {
    type V = (Seq<char>, HintRow);

    open spec fn view(&self) -> (Seq<char>, HintRow) {
        (self.name@, self.guess@)
    }
}

/// Why a text is no `name:row`.
#[derive(Copy, Clone, Debug, PartialEq, Eq, Structural)]
pub enum NameAndGuessError {
    NoColon,
    InvalidGuess,
}

impl NameAndGuessError {
    /// The message for this error.
    pub fn message(self) -> (text: &'static str)
        ensures
            text@ == match self {
                NameAndGuessError::NoColon => "No : in input"@,
                NameAndGuessError::InvalidGuess => "Invalid guess format."@,
            },
    {
        match self {
            NameAndGuessError::NoColon => "No : in input",
            NameAndGuessError::InvalidGuess => "Invalid guess format.",
        }
    }
}

/// What a text of the form `name:row` stands for: the name, trimmed, is what
/// stands before the first colon, the row what stands after it.
pub open spec fn parse_name_and_row(text: Seq<char>) -> Result<
    (Seq<char>, HintRow),
    NameAndGuessError,
> {
    match first_index_of(text, ':') {
        None => Err(NameAndGuessError::NoColon),
        Some(colon) => match parse_row(text.skip(colon + 1)) {
            Some(row) => Ok((trim(text.take(colon)), row)),
            None => Err(NameAndGuessError::InvalidGuess),
        },
    }
}

/// Reads a `name:row` from `chars[lo..hi]`, the characters of `text`.
pub fn read_name_and_guess(text: &str, chars: &Vec<char>, lo: usize, hi: usize) -> (entry: Result<
    NameAndGuess,
    NameAndGuessError,
>)
    requires
        chars@ == text@,
        lo <= hi <= chars.len(),
    ensures
        parse_name_and_row(chars@.subrange(lo as int, hi as int)) == match entry {
            Ok(e) => Ok(e@),
            Err(e) => Err(e),
        },
{
    let ghost part = chars@.subrange(lo as int, hi as int);
    let colon = match find_char(chars, lo, hi, ':') {
        Some(colon) => colon,
        None => {
            return Err(NameAndGuessError::NoColon);
        },
    };
    proof {
        assert(part.skip(colon - lo + 1) =~= chars@.subrange(colon + 1, hi as int));
        assert(part.take(colon - lo) =~= chars@.subrange(lo as int, colon as int));
    }
    let guess = match read_row(chars, colon + 1, hi) {
        Some(guess) => guess,
        None => {
            return Err(NameAndGuessError::InvalidGuess);
        },
    };
    let (from, to) = trim_bounds(chars, lo, colon);
    let name = text.substring_char(from, to).to_owned();
    Ok(NameAndGuess { name, guess })
}

impl NameAndGuess {
    /// Reads a `name:row`.
    pub fn parse(text: &str) -> (entry: Result<NameAndGuess, NameAndGuessError>)
        ensures
            parse_name_and_row(text@) == match entry {
                Ok(e) => Ok(e@),
                Err(e) => Err(e),
            },
    {
        let chars = chars_of(text);
        proof {
            assert(chars@.subrange(0, chars.len() as int) =~= chars@);
        }
        read_name_and_guess(text, &chars, 0, chars.len())
    }
}

impl std::str::FromStr for NameAndGuess {
    type Err = NameAndGuessError;

    fn from_str(text: &str) -> (entry: Result<Self, NameAndGuessError>)
        ensures
            parse_name_and_row(text@) == match entry {
                Ok(e) => Ok(e@),
                Err(e) => Err(e),
            },
    {
        NameAndGuess::parse(text)
    }
}

/// The views of a list of played guesses, in order.
pub open spec fn seeds(entries: Seq<NameAndGuess>) -> Seq<(Seq<char>, HintRow)> {
    entries.map_values(|e: NameAndGuess| e@)
}

/// Whether a sinner goes by `name`, the case of ASCII letters left aside.
pub open spec fn goes_by(sinner: SinnerView, name: Seq<char>) -> bool {
    same_ignoring_ascii_case(sinner.name, name)
}

/// Whether `at` is the first position of the roster whose sinner goes by
/// `name`.
pub open spec fn is_first_named(roster: Seq<SinnerView>, name: Seq<char>, at: int) -> bool {
    &&& 0 <= at < roster.len()
    &&& goes_by(roster[at], name)
    &&& forall|k: int| 0 <= k < at ==> !goes_by(#[trigger] roster[k], name)
}

/// Whether no sinner of the roster goes by `name`.
pub open spec fn is_unknown(roster: Seq<SinnerView>, name: Seq<char>) -> bool {
    forall|k: int| 0 <= k < roster.len() ==> !goes_by(#[trigger] roster[k], name)
}

/// Finds the first sinner of the roster that goes by the name
/// `chars[lo..hi]`.
pub fn find_named(roster: &[Sinner], chars: &Vec<char>, lo: usize, hi: usize) -> (place: Option<
    usize,
>)
    requires
        lo <= hi <= chars.len(),
    ensures
        match place {
            Some(at) => is_first_named(
                views(roster@),
                chars@.subrange(lo as int, hi as int),
                at as int,
            ),
            None => is_unknown(views(roster@), chars@.subrange(lo as int, hi as int)),
        },
{
    let ghost all = views(roster@);
    let ghost name = chars@.subrange(lo as int, hi as int);
    let mut at: usize = 0;
    while at < roster.len()
        invariant
            at <= roster.len(),
            lo <= hi <= chars.len(),
            all == views(roster@),
            name == chars@.subrange(lo as int, hi as int),
            forall|k: int| 0 <= k < at ==> !goes_by(#[trigger] all[k], name),
        decreases roster.len() - at,
    {
        let own = chars_of(roster[at].name.as_str());
        if matches_ignoring_ascii_case(&own, chars, lo, hi) {
            assert(goes_by(all[at as int], name));
            return Some(at);
        }
        assert(!goes_by(all[at as int], name));
        at += 1;
    }
    None
}

/// Finds the first sinner of the roster that goes by `name`.
pub fn find_by_name(roster: &[Sinner], name: &str) -> (place: Option<usize>)
    ensures
        match place {
            Some(at) => is_first_named(views(roster@), name@, at as int),
            None => is_unknown(views(roster@), name@),
        },
{
    let wanted = chars_of(name);
    proof {
        assert(wanted@.subrange(0, wanted.len() as int) =~= wanted@);
    }
    find_named(roster, &wanted, 0, wanted.len())
}

/// The candidates of a roster after the played guesses were taken in, one
/// after the other, or nothing when one of them names no sinner of the
/// roster. A name stands for the first sinner that goes by it.
pub open spec fn seeded(roster: Seq<SinnerView>, played: Seq<(Seq<char>, HintRow)>) -> Option<
    Seq<SinnerView>,
>
    decreases played.len(),
{
    if played.len() == 0 {
        Some(roster)
    } else {
        let last = played.last();
        match seeded(roster, played.drop_last()) {
            Some(candidates) => if is_unknown(roster, last.0) {
                None
            } else {
                let at = choose|at: int| is_first_named(roster, last.0, at);
                Some(narrowed(candidates, last.1, roster[at]))
            },
            None => None,
        }
    }
}

/// Why a game cannot be solved from what the user reported.
#[derive(Debug)]
pub enum SolveError {
    /// A played guess names no sinner of the roster.
    UnknownSinner(String),
    /// No candidate is consistent with all the hints.
    Contradiction,
}

impl SolveError {
    /// The message for this error.
    pub fn message(&self) -> (text: String)
        ensures
            text@ == match self {
                SolveError::UnknownSinner(name) => "No sinner with name "@ + name@ + " found"@,
                SolveError::Contradiction =>
                    "No possible guesses in this state. There is likely a contradiction."@,
            },
    {
        match self {
            SolveError::UnknownSinner(name) => {
                let mut text = "No sinner with name ".to_owned();
                vstd::string::StringExecFns::append(&mut text, name.as_str());
                vstd::string::StringExecFns::append(&mut text, " found");
                text
            },
            SolveError::Contradiction => {
                "No possible guesses in this state. There is likely a contradiction.".to_owned()
            },
        }
    }
}

/// A player for the roster `sinners` that has taken in the played guesses of
/// `initial_state`, in order. The first played guess that names no sinner of
/// the roster is an error.
pub fn seed(initial_state: &[NameAndGuess], sinners: Vec<Sinner>) -> (player: Result<
    OptimalPlayer,
    SolveError,
>)
    ensures
        match player {
            Ok(p) => seeded(views(sinners@), seeds(initial_state@)) == Some(p@),
            Err(SolveError::UnknownSinner(name)) => seeded(views(sinners@), seeds(initial_state@))
                is None && exists|k: int|
                0 <= k < initial_state.len() && name@ == initial_state[k].name@ && is_unknown(
                    views(sinners@),
                    name@,
                ) && seeded(views(sinners@), seeds(initial_state@).take(k)) is Some,
            Err(SolveError::Contradiction) => false,
        },
{
    let ghost roster = views(sinners@);
    let ghost played = seeds(initial_state@);
    let mut full: Vec<Sinner> = Vec::new();
    let mut i: usize = 0;
    while i < sinners.len()
        invariant
            i <= sinners.len(),
            full.len() == i,
            forall|k: int| 0 <= k < i ==> full[k] == sinners[k],
        decreases sinners.len() - i,
    {
        full.push(sinners[i].clone());
        i += 1;
    }
    proof {
        assert(views(full@) =~= roster);
        assert(played.take(0) =~= Seq::empty());
    }
    let mut player = OptimalPlayer::new(sinners);
    let mut k: usize = 0;
    while k < initial_state.len()
        invariant
            k <= initial_state.len(),
            roster == views(full@),
            roster == views(sinners@),
            played == seeds(initial_state@),
            seeded(roster, played.take(k as int)) == Some(player@),
        decreases initial_state.len() - k,
    {
        let entry = &initial_state[k];
        proof {
            assert(played.take(k + 1).drop_last() =~= played.take(k as int));
            assert(played.take(k + 1).last() == entry@);
        }
        match find_by_name(full.as_slice(), entry.name.as_str()) {
            Some(at) => {
                proof {
                    lemma_first_named_is_unique(roster, entry.name@, at as int);
                    assert(roster[at as int] == full[at as int]@);
                }
                player.update(entry.guess, &full[at]);
            },
            None => {
                let name = entry.name.clone();
                proof {
                    assert(played[k as int] == entry@);
                    lemma_seeded_fails_on(roster, played, k as int);
                    assert(name@ == initial_state[k as int].name@);
                    assert(is_unknown(roster, name@));
                    assert(seeded(roster, played.take(k as int)) is Some);
                }
                return Err(SolveError::UnknownSinner(name));
            },
        }
        k += 1;
    }
    proof {
        assert(played.take(k as int) =~= played);
    }
    Ok(player)
}

/// The first sinner that goes by a name is the one the choice falls on.
pub proof fn lemma_first_named_is_unique(roster: Seq<SinnerView>, name: Seq<char>, at: int)
    requires
        is_first_named(roster, name, at),
    ensures
        !is_unknown(roster, name),
        (choose|other: int| is_first_named(roster, name, other)) == at,
{
    let other = choose|other: int| is_first_named(roster, name, other);
    if other < at {
        assert(!goes_by(roster[other], name));
    }
    if at < other {
        assert(!goes_by(roster[at], name));
    }
}

/// Once a played guess names no sinner, no later guess mends that.
pub proof fn lemma_seeded_fails_on(
    roster: Seq<SinnerView>,
    played: Seq<(Seq<char>, HintRow)>,
    k: int,
)
    requires
        0 <= k < played.len(),
        is_unknown(roster, played[k].0),
    ensures
        seeded(roster, played) is None,
    decreases played.len(),
{
    if k < played.len() - 1 {
        assert(played.drop_last()[k] == played[k]);
        lemma_seeded_fails_on(roster, played.drop_last(), k);
    }
}

/// What to tell the user of the solver next.
#[derive(Debug)]
pub enum Advice<'a> {
    /// No candidate is left: the reported hints contradict each other.
    Contradiction,
    /// One candidate is left: it is the secret.
    Solved(&'a Sinner),
    /// Several candidates are left: this one is the guess to play.
    Play(&'a Sinner),
}

/// Decides what to tell the user next from the candidates that are left.
pub fn advise(player: &OptimalPlayer) -> (advice: Advice<'_>)
    ensures
        match advice {
            Advice::Contradiction => player@.len() == 0,
            Advice::Solved(sinner) => player@.len() == 1 && sinner@ == player@[0],
            Advice::Play(sinner) => player@.len() > 1 && is_best(player@, best_index(player@))
                && sinner@ == player@[best_index(player@)],
        },
{
    match player.next_guess() {
        None => Advice::Contradiction,
        Some(sinner) => {
            if player.candidates().len() == 1 {
                Advice::Solved(sinner)
            } else {
                Advice::Play(sinner)
            }
        },
    }
}

/// What a line that the user entered at the prompt for a row stands for.
#[derive(Copy, Clone, Debug, PartialEq, Eq, Structural)]
pub enum RowEntry {
    /// The line `q`: the user gives up.
    Quit,
    /// A hint row.
    Row(Guess),
    /// Anything else: the prompt is repeated.
    Invalid,
}

/// Whether a line is the word that quits.
pub open spec fn is_quit(line: Seq<char>) -> bool {
    trim(line).len() == 1 && trim(line)[0] == 'q'
}

/// Reads a line entered at the prompt for a row.
pub fn read_entry(line: &str) -> (entry: RowEntry)
    ensures
        match entry {
            RowEntry::Quit => is_quit(line@),
            RowEntry::Row(hint) => !is_quit(line@) && parse_row(line@) == Some(hint@),
            RowEntry::Invalid => !is_quit(line@) && parse_row(line@) is None,
        },
{
    let chars = chars_of(line);
    proof {
        assert(chars@.subrange(0, chars.len() as int) =~= chars@);
    }
    let (from, to) = trim_bounds(&chars, 0, chars.len());
    if to - from == 1 && chars[from] == 'q' {
        assert(chars@.subrange(from as int, to as int)[0] == 'q');
        return RowEntry::Quit;
    }
    proof {
        if to - from == 1 {
            assert(chars@.subrange(from as int, to as int)[0] == chars@[from as int]);
        }
    }
    match read_row(&chars, 0, chars.len()) {
        Some(hint) => RowEntry::Row(hint),
        None => RowEntry::Invalid,
    }
}

} // verus!
