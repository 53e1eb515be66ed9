//! The candidate set, the player that narrows it, and the game it plays.

use vstd::prelude::*;

use crate::data::{copy_of, distinct_codes, views, Sinner, SinnerView};
use crate::deduce::{consistent, hint_of, lemma_round_trip};
use crate::guess::{Guess, HintRow};

verus! {

/// The test that a hint observed on `guess` puts to a candidate: whether the
/// hint leaves it possible.
pub open spec fn possible_after(hint: HintRow, guess: SinnerView) -> spec_fn(SinnerView) -> bool {
    |candidate: SinnerView| consistent(hint, guess, candidate)
}

/// The test that an update puts to a candidate: whether the hint observed on
/// `guess` leaves it possible and it does not carry the code of `guess`.
pub open spec fn kept_after(hint: HintRow, guess: SinnerView) -> spec_fn(SinnerView) -> bool {
    |candidate: SinnerView| consistent(hint, guess, candidate) && candidate.code != guess.code
}

/// The candidate set after `hint` was observed on `guess`, in the old order.
pub open spec fn narrowed(candidates: Seq<SinnerView>, hint: HintRow, guess: SinnerView) -> Seq<
    SinnerView,
> {
    candidates.filter(kept_after(hint, guess))
}

/// How many candidates a hint observed on `guess` leaves possible.
pub open spec fn survivors(candidates: Seq<SinnerView>, hint: HintRow, guess: SinnerView) -> nat {
    candidates.filter(possible_after(hint, guess)).len()
}

/// The survivors of guessing `guess`, summed over the first `n` candidates
/// taken as the secret, the guess itself left out.
pub open spec fn cost_upto(candidates: Seq<SinnerView>, guess: SinnerView, n: int) -> nat
    decreases n,
{
    if n <= 0 {
        0
    } else {
        let target = candidates[n - 1];
        let here = if target != guess {
            survivors(candidates, hint_of(target, guess), guess)
        } else {
            0
        };
        cost_upto(candidates, guess, n - 1) + here
    }
}

/// The survivors of guessing `guess`, summed over every candidate taken as the
/// secret. Divided by the number of candidates this is the expected size of
/// the set that the guess leaves; the divisor is the same for every guess.
pub open spec fn cost(candidates: Seq<SinnerView>, guess: SinnerView) -> nat {
    cost_upto(candidates, guess, candidates.len() as int)
}

/// Whether the candidate at `i` has the least cost, and is the first to do so.
pub open spec fn is_best(candidates: Seq<SinnerView>, i: int) -> bool {
    &&& 0 <= i < candidates.len()
    &&& forall|j: int|
        0 <= j < candidates.len() ==> cost(candidates, candidates[i]) <= cost(
            candidates,
            #[trigger] candidates[j],
        )
    &&& forall|j: int|
        0 <= j < i ==> cost(candidates, #[trigger] candidates[j]) > cost(candidates, candidates[i])
}

/// The position of the next guess in a candidate set that is not empty.
pub open spec fn best_index(candidates: Seq<SinnerView>) -> int {
    choose|i: int| is_best(candidates, i)
}

/// At most one position is the best.
pub proof fn lemma_best_is_unique(candidates: Seq<SinnerView>, i: int, j: int)
    requires
        is_best(candidates, i),
        is_best(candidates, j),
    ensures
        i == j,
        best_index(candidates) == i,
{
    if i < j {
        assert(cost(candidates, candidates[i]) > cost(candidates, candidates[j]));
    }
    if j < i {
        assert(cost(candidates, candidates[j]) > cost(candidates, candidates[i]));
    }
    let k = best_index(candidates);
    if i < k {
        assert(cost(candidates, candidates[i]) > cost(candidates, candidates[k]));
    }
    if k < i {
        assert(cost(candidates, candidates[k]) > cost(candidates, candidates[i]));
    }
}

/// No guess costs more than the square of the number of candidates.
pub proof fn lemma_cost_bound(candidates: Seq<SinnerView>, guess: SinnerView, n: int)
    requires
        0 <= n <= candidates.len(),
    ensures
        cost_upto(candidates, guess, n) <= n * candidates.len(),
    decreases n,
{
    if n > 0 {
        lemma_cost_bound(candidates, guess, n - 1);
        let target = candidates[n - 1];
        candidates.lemma_filter_len(possible_after(hint_of(target, guess), guess));
        assert((n - 1) * candidates.len() + candidates.len() == n * candidates.len())
            by (nonlinear_arith);
    }
}

/// Narrowing never adds a candidate: what is left was there before, and no
/// more of it.
pub proof fn lemma_narrowed_is_within(candidates: Seq<SinnerView>, hint: HintRow, guess: SinnerView)
    ensures
        narrowed(candidates, hint, guess).len() <= candidates.len(),
        forall|c: SinnerView|
            #[trigger] narrowed(candidates, hint, guess).contains(c) ==> candidates.contains(c)
                && consistent(hint, guess, c) && c.code != guess.code,
{
    let keep = kept_after(hint, guess);
    let after = candidates.filter(keep);
    candidates.lemma_filter_len(keep);
    assert forall|c: SinnerView| after.contains(c) implies candidates.contains(c) && consistent(
        hint,
        guess,
        c,
    ) && c.code != guess.code by {
        let i = choose|i: int| 0 <= i < after.len() && after[i] == c;
        candidates.lemma_filter_pred(keep, i);
        candidates.lemma_filter_contains_rev(keep, c);
    }
}

/// Counts the candidates that `hint`, observed on `guess`, leaves possible.
fn count_survivors(candidates: &Vec<Sinner>, hint: Guess, guess: &Sinner) -> (n: usize)
    ensures
        n == survivors(views(candidates@), hint@, guess@),
{
    let ghost all = views(candidates@);
    let ghost keep = possible_after(hint@, guess@);
    let mut n: usize = 0;
    let mut i: usize = 0;
    while i < candidates.len()
        invariant
            i <= candidates.len(),
            n <= i,
            all == views(candidates@),
            keep == possible_after(hint@, guess@),
            n == all.take(i as int).filter(keep).len(),
        decreases candidates.len() - i,
    {
        let possible = guess.matches_result(hint, &candidates[i]);
        proof {
            assert(all.take(i + 1) =~= all.take(i as int).push(all[i as int]));
            all.take(i as int).lemma_filter_push(all[i as int], keep);
            assert(keep(all[i as int]) == possible);
        }
        if possible {
            n += 1;
        }
        i += 1;
    }
    proof {
        assert(all.take(i as int) =~= all);
    }
    n
}

/// The cost of guessing the candidate at `at`.
fn cost_of(candidates: &Vec<Sinner>, at: usize) -> (total: u128)
    requires
        at < candidates.len(),
    ensures
        total == cost(views(candidates@), candidates[at as int]@),
{
    let ghost all = views(candidates@);
    let guess = &candidates[at];
    let len = candidates.len();
    let mut total: u128 = 0;
    let mut i: usize = 0;
    while i < len
        invariant
            i <= len,
            len == candidates.len(),
            all == views(candidates@),
            at < len,
            *guess == candidates[at as int],
            total == cost_upto(all, guess@, i as int),
        decreases len - i,
    {
        let target = &candidates[i];
        proof {
            lemma_cost_bound(all, guess@, i as int);
            lemma_cost_bound(all, guess@, i + 1);
            assert((i + 1) * len <= 0xffff_ffff_ffff_ffff * 0xffff_ffff_ffff_ffff)
                by (nonlinear_arith)
                requires
                    0 <= i + 1 <= len,
                    len <= 0xffff_ffff_ffff_ffff,
            ;
            assert(all[i as int] == target@);
        }
        if target != guess {
            let hint = target.guess(guess);
            let n = count_survivors(candidates, hint, guess);
            total += n as u128;
        }
        i += 1;
    }
    total
}

/// A player that always guesses the candidate which leaves the fewest
/// candidates on average.
#[derive(Debug)]
pub struct OptimalPlayer {
    candidates: Vec<Sinner>,
}

impl Clone for OptimalPlayer {
    fn clone(&self) -> (copy: Self)
        ensures
            copy@ == self@,
    {
        OptimalPlayer { candidates: copy_of(self.candidates.as_slice()) }
    }
}

impl View for OptimalPlayer {
    type V = Seq<SinnerView>;

    closed spec fn view(&self) -> Seq<SinnerView> {
        views(self.candidates@)
    }
}

impl OptimalPlayer {
    /// A player for which every sinner of `candidates` is still possible.
    pub fn new(candidates: Vec<Sinner>) -> (player: OptimalPlayer)
        ensures
            player@ == views(candidates@),
    {
        OptimalPlayer { candidates }
    }

    /// The candidates that are still possible, in roster order.
    pub fn candidates(&self) -> (candidates: &Vec<Sinner>)
        ensures
            views(candidates@) == self@,
    {
        &self.candidates
    }

    /// The cost of guessing the candidate at `at`: the number of candidates
    /// that the guess leaves possible, summed over every other candidate
    /// taken as the secret. Nothing when there is no candidate at `at`.
    pub fn cost_at(&self, at: usize) -> (total: Option<u128>)
        ensures
            match total {
                Some(t) => at < self@.len() && t == cost(self@, self@[at as int]),
                None => at >= self@.len(),
            },
    {
        if at < self.candidates.len() {
            Some(cost_of(&self.candidates, at))
        } else {
            None
        }
    }
}

/// What the game driver asks of a player.
pub trait Player {
    /// Takes in the hint that was answered to the guess of `character`.
    fn update(&mut self, result: Guess, character: &Sinner);

    /// The next guess, or nothing when the hints seen so far contradict each
    /// other.
    fn next_guess(&self) -> Option<&Sinner>;
}

impl Player for OptimalPlayer {
    /// Keeps the candidates that `result` leaves possible and drops every
    /// candidate with the code of `character`.
    fn update(&mut self, result: Guess, character: &Sinner)
        ensures
            final(self)@ == narrowed(old(self)@, result@, character@),
            final(self)@.len() <= old(self)@.len(),
            forall|c: SinnerView| #[trigger] final(self)@.contains(c) ==> old(self)@.contains(c),
    {
        let ghost before = self@;
        let ghost keep = kept_after(result@, character@);
        let mut kept: Vec<Sinner> = Vec::new();
        let mut i: usize = 0;
        while i < self.candidates.len()
            invariant
                i <= self.candidates.len(),
                before == views(self.candidates@),
                keep == kept_after(result@, character@),
                views(kept@) == before.take(i as int).filter(keep),
            decreases self.candidates.len() - i,
        {
            let candidate = &self.candidates[i];
            let stays = character.matches_result(result, candidate) && candidate.code
                != character.code;
            proof {
                assert(before.take(i + 1) =~= before.take(i as int).push(before[i as int]));
                before.take(i as int).lemma_filter_push(before[i as int], keep);
                assert(keep(before[i as int]) == stays);
            }
            if stays {
                let copy = candidate.clone();
                proof {
                    assert(views(kept@.push(copy)) =~= views(kept@).push(copy@));
                }
                kept.push(copy);
            }
            i += 1;
        }
        proof {
            assert(before.take(i as int) =~= before);
            lemma_narrowed_is_within(before, result@, character@);
        }
        self.candidates = kept;
    }

    /// The first candidate of least cost: the only candidate when one is
    /// left, nothing when none is.
    fn next_guess(&self) -> (pick: Option<&Sinner>)
        ensures
            self@.len() == 0 <==> pick is None,
            pick matches Some(sinner) ==> is_best(self@, best_index(self@)) && sinner@
                == self@[best_index(self@)],
    {
        let ghost all = self@;
        let len = self.candidates.len();
        if len == 0 {
            return None;
        }
        if len == 1 {
            proof {
                assert(is_best(all, 0));
                lemma_best_is_unique(all, 0, 0);
            }
            return Some(&self.candidates[0]);
        }
        let mut best: usize = 0;
        let mut least: u128 = cost_of(&self.candidates, 0);
        let mut i: usize = 1;
        while i < len
            invariant
                1 <= i <= len,
                len == self.candidates.len(),
                all == views(self.candidates@),
                best < i,
                least == cost(all, all[best as int]),
                forall|j: int| 0 <= j < i ==> least <= cost(all, #[trigger] all[j]),
                forall|j: int| 0 <= j < best ==> cost(all, #[trigger] all[j]) > least,
            decreases len - i,
        {
            let here = cost_of(&self.candidates, i);
            if here < least {
                best = i;
                least = here;
            }
            i += 1;
        }
        proof {
            assert(is_best(all, best as int));
            lemma_best_is_unique(all, best as int, best as int);
        }
        Some(&self.candidates[best])
    }
}

/// A filter that rejects one of the elements returns fewer than it was given.
proof fn lemma_filter_drops<A>(s: Seq<A>, keep: spec_fn(A) -> bool, i: int)
    requires
        0 <= i < s.len(),
        !keep(s[i]),
    ensures
        s.filter(keep).len() < s.len(),
    decreases s.len(),
{
    let front = s.drop_last();
    assert(s =~= front.push(s.last()));
    front.lemma_filter_push(s.last(), keep);
    front.lemma_filter_len(keep);
    if i < s.len() - 1 {
        lemma_filter_drops(front, keep, i);
    }
}

/// Guessing a candidate and taking in the answer removes at least that
/// candidate.
pub proof fn lemma_narrowed_drops_guess(candidates: Seq<SinnerView>, hint: HintRow, i: int)
    requires
        0 <= i < candidates.len(),
    ensures
        narrowed(candidates, hint, candidates[i]).len() < candidates.len(),
{
    lemma_filter_drops(candidates, kept_after(hint, candidates[i]), i);
}

/// Among the first `n` candidates, with `n` at least one, some position has
/// the least cost and is the first to have it.
proof fn lemma_best_among(candidates: Seq<SinnerView>, n: int) -> (b: int)
    requires
        1 <= n <= candidates.len(),
    ensures
        0 <= b < n,
        forall|j: int|
            0 <= j < n ==> cost(candidates, candidates[b]) <= cost(
                candidates,
                #[trigger] candidates[j],
            ),
        forall|j: int|
            0 <= j < b ==> cost(candidates, #[trigger] candidates[j]) > cost(
                candidates,
                candidates[b],
            ),
    decreases n,
{
    if n == 1 {
        0
    } else {
        let before = lemma_best_among(candidates, n - 1);
        if cost(candidates, candidates[n - 1]) < cost(candidates, candidates[before]) {
            n - 1
        } else {
            before
        }
    }
}

/// A candidate set that is not empty has a best position.
pub proof fn lemma_best_exists(candidates: Seq<SinnerView>)
    requires
        candidates.len() > 0,
    ensures
        is_best(candidates, best_index(candidates)),
{
    let b = lemma_best_among(candidates, candidates.len() as int);
    assert(is_best(candidates, b));
}

/// The guesses of a whole game against the secret `target`, from the
/// candidate set `candidates` on: the best candidate, then, unless it is the
/// secret, the guesses of the game that goes on from the narrowed set.
pub open spec fn trace(target: SinnerView, candidates: Seq<SinnerView>) -> Seq<SinnerView>
    decreases candidates.len(),
    via trace_decreases
{
    if candidates.len() == 0 {
        Seq::empty()
    } else {
        let guess = candidates[best_index(candidates)];
        if guess == target {
            seq![guess]
        } else {
            seq![guess] + trace(target, narrowed(candidates, hint_of(target, guess), guess))
        }
    }
}

#[via_fn]
proof fn trace_decreases(target: SinnerView, candidates: Seq<SinnerView>) {
    if candidates.len() > 0 {
        lemma_best_exists(candidates);
        let i = best_index(candidates);
        lemma_narrowed_drops_guess(candidates, hint_of(target, candidates[i]), i);
    }
}

/// Whether the game against `target` ends with the secret guessed.
pub open spec fn found(target: SinnerView, candidates: Seq<SinnerView>) -> bool {
    trace(target, candidates).len() > 0 && trace(target, candidates).last() == target
}

/// The number that the game reports: the count of guesses when the secret
/// was guessed, 255 when the candidates ran out first.
pub open spec fn outcome(target: SinnerView, candidates: Seq<SinnerView>) -> int {
    if found(target, candidates) {
        trace(target, candidates).len() as int
    } else {
        255
    }
}

/// The number reported for a game in which the hints contradicted each other.
pub const CONTRADICTION: u8 = 255;

/// One game in progress: the secret and the number of the guess that is due.
#[derive(Debug)]
pub struct Game<'game> {
    target: &'game Sinner,
    guess_num: u8,
}

impl<'game> Clone for Game<'game> {
    fn clone(&self) -> (copy: Self)
        ensures
            copy == *self,
    {
        Game { target: self.target, guess_num: self.guess_num }
    }
}

impl<'game> Game<'game> {
    /// The secret of this game.
    pub closed spec fn target(&self) -> SinnerView {
        self.target@
    }

    /// The number of the guess that is due, counted from one.
    pub closed spec fn due(&self) -> int {
        self.guess_num as int
    }

    /// A game whose first guess is due.
    pub fn new(target: &'game Sinner) -> (game: Self)
        ensures
            game.target() == target@,
            game.due() == 1,
    {
        Self { target, guess_num: 1 }
    }

    /// The number of the guess that is due, counted from one.
    pub fn guess_num(&self) -> (n: u8)
        ensures
            n == self.due(),
    {
        self.guess_num
    }

    /// Plays `character`. The secret itself is answered by nothing and leaves
    /// the game as it is; any other sinner is answered by its hint and uses up
    /// one guess.
    pub fn guess(&mut self, character: &Sinner) -> (hint: Option<Guess>)
        requires
            character@ != old(self).target() ==> old(self).due() < 255,
        ensures
            final(self).target() == old(self).target(),
            character@ == old(self).target() ==> hint is None && final(self).due() == old(
                self,
            ).due(),
            character@ != old(self).target() ==> final(self).due() == old(self).due() + 1 && (
            hint matches Some(row) && row@ == hint_of(old(self).target(), character@)),
    {
        if character == self.target {
            return None;
        }
        let hint = self.target.guess(character);
        self.guess_num += 1;
        Some(hint)
    }
}

/// One guess of a finished game and what it was answered by: a hint, or
/// nothing when the guess was the secret.
#[derive(Debug)]
pub struct Round {
    pub guessed: Sinner,
    pub hint: Option<Guess>,
}

/// A finished game: its rounds in order and the number it reports.
#[derive(Debug)]
pub struct GameRecord {
    pub rounds: Vec<Round>,
    pub guess_count: u8,
}

/// The sinners guessed in a list of rounds, in order.
pub open spec fn guessed(rounds: Seq<Round>) -> Seq<SinnerView> {
    rounds.map_values(|r: Round| r.guessed@)
}

/// Whether a round carries the answer that the secret `target` gives.
pub open spec fn answered_by(round: Round, target: SinnerView) -> bool {
    if round.guessed@ == target {
        round.hint is None
    } else {
        round.hint matches Some(row) && row@ == hint_of(target, round.guessed@)
    }
}

/// Whether no sinner without a code, other than the secret itself, is among
/// the candidates of a game for a secret without a code.
pub open spec fn codes_tell_apart(target: SinnerView, candidates: Seq<SinnerView>) -> bool {
    forall|i: int|
        0 <= i < candidates.len() ==> (#[trigger] candidates[i]).code is Some || target.code
            is Some || candidates[i] == target
}

/// Plays a whole game for the secret `target`: the player guesses, each wrong
/// guess is answered by its hint and the player takes the hint in, until the
/// secret is guessed or no candidate is left.
///
/// The count must fit the counter, so fewer than 255 candidates may stand at
/// the start, and every hint must keep the secret, so the candidates hold no
/// second sinner without a code beside a secret without one.
pub fn play_game(target: &Sinner, player: OptimalPlayer) -> (record: GameRecord)
    requires
        player@.len() < 255,
        codes_tell_apart(target@, player@),
    ensures
        guessed(record.rounds@) == trace(target@, player@),
        forall|i: int|
            0 <= i < record.rounds.len() ==> answered_by(#[trigger] record.rounds[i], target@),
        record.guess_count == outcome(target@, player@),
        record.guess_count >= 1,
{
    let ghost start = player@;
    let mut current = player;
    let mut game = Game::new(target);
    let mut rounds: Vec<Round> = Vec::new();
    loop
        invariant
            game.target() == target@,
            game.due() == rounds.len() + 1,
            rounds.len() + current@.len() <= start.len(),
            start.len() < 255,
            start == player@,
            codes_tell_apart(target@, current@),
            trace(target@, start) == guessed(rounds@) + trace(target@, current@),
            forall|i: int| 0 <= i < rounds.len() ==> answered_by(#[trigger] rounds[i], target@),
            forall|i: int| 0 <= i < rounds.len() ==> (#[trigger] rounds[i]).guessed@ != target@,
        decreases current@.len(),
    {
        let ghost before = current@;
        let ghost played = guessed(rounds@);
        let chosen = match current.next_guess() {
            Some(pick) => pick.clone(),
            None => {
                proof {
                    assert(trace(target@, start) =~= played);
                    if played.len() > 0 {
                        assert(played.last() == rounds[rounds.len() - 1].guessed@);
                    }
                }
                return GameRecord { rounds, guess_count: CONTRADICTION };
            },
        };
        proof {
            assert(chosen@ == before[best_index(before)]);
        }
        match game.guess(&chosen) {
            Some(hint) => {
                proof {
                    lemma_round_trip(target@, chosen@);
                    lemma_narrowed_drops_guess(before, hint@, best_index(before));
                    lemma_narrowed_is_within(before, hint@, chosen@);
                    assert(trace(target@, before) == seq![chosen@] + trace(
                        target@,
                        narrowed(before, hint@, chosen@),
                    ));
                }
                current.update(hint, &chosen);
                let round = Round { guessed: chosen, hint: Some(hint) };
                proof {
                    assert(guessed(rounds@.push(round)) =~= played.push(chosen@));
                    assert(played + (seq![chosen@] + trace(target@, current@)) =~= played.push(
                        chosen@,
                    ) + trace(target@, current@));
                    assert forall|i: int| 0 <= i < current@.len() implies (
                    #[trigger] current@[i]).code is Some || target@.code is Some || current@[i]
                        == target@ by {
                        assert(current@.contains(current@[i]));
                        assert(before.contains(current@[i]));
                    }
                }
                rounds.push(round);
            },
            None => {
                let round = Round { guessed: chosen, hint: None };
                proof {
                    assert(trace(target@, before) == seq![chosen@]);
                    assert(guessed(rounds@.push(round)) =~= played.push(chosen@));
                    assert(played + seq![chosen@] =~= played.push(chosen@));
                    assert(played.push(chosen@).last() == target@);
                }
                rounds.push(round);
                return GameRecord { rounds, guess_count: game.guess_num() };
            },
        }
    }
}

/// The candidate set after a list of hints, each observed on its guess, was
/// taken in, one after the other.
pub open spec fn after_hints(candidates: Seq<SinnerView>, hints: Seq<(HintRow, SinnerView)>) -> Seq<
    SinnerView,
>
    decreases hints.len(),
{
    if hints.len() == 0 {
        candidates
    } else {
        narrowed(after_hints(candidates, hints.drop_last()), hints.last().0, hints.last().1)
    }
}

/// Filter monotonicity: whatever hints are taken in, the candidate set never
/// grows and never holds a sinner that was not in it before.
pub proof fn lemma_updates_only_shrink(
    candidates: Seq<SinnerView>,
    hints: Seq<(HintRow, SinnerView)>,
)
    ensures
        after_hints(candidates, hints).len() <= candidates.len(),
        forall|c: SinnerView|
            #[trigger] after_hints(candidates, hints).contains(c) ==> candidates.contains(c),
    decreases hints.len(),
{
    if hints.len() > 0 {
        let earlier = after_hints(candidates, hints.drop_last());
        lemma_updates_only_shrink(candidates, hints.drop_last());
        lemma_narrowed_is_within(earlier, hints.last().0, hints.last().1);
    }
}

/// Whether `target` is among the candidates and is the only one with its
/// code.
pub open spec fn stands_alone(target: SinnerView, candidates: Seq<SinnerView>) -> bool {
    &&& candidates.contains(target)
    &&& forall|i: int|
        0 <= i < candidates.len() && (#[trigger] candidates[i]).code == target.code
            ==> candidates[i] == target
}

/// A game guesses candidates only, never more of them than there are, and
/// none after the secret.
pub proof fn lemma_trace_within(target: SinnerView, candidates: Seq<SinnerView>)
    ensures
        trace(target, candidates).len() <= candidates.len(),
        forall|k: int|
            0 <= k < trace(target, candidates).len() ==> candidates.contains(
                #[trigger] trace(target, candidates)[k],
            ),
        forall|k: int|
            0 <= k < trace(target, candidates).len() - 1 ==> #[trigger] trace(
                target,
                candidates,
            )[k] != target,
    decreases candidates.len(),
{
    if candidates.len() > 0 {
        lemma_best_exists(candidates);
        let i = best_index(candidates);
        let guess = candidates[i];
        if guess != target {
            let hint = hint_of(target, guess);
            let rest = narrowed(candidates, hint, guess);
            lemma_narrowed_drops_guess(candidates, hint, i);
            lemma_narrowed_is_within(candidates, hint, guess);
            lemma_trace_within(target, rest);
            let all = trace(target, candidates);
            assert(all == seq![guess] + trace(target, rest));
            assert forall|k: int| 0 <= k < all.len() implies candidates.contains(
                #[trigger] all[k],
            ) by {
                if k > 0 {
                    assert(all[k] == trace(target, rest)[k - 1]);
                    assert(rest.contains(trace(target, rest)[k - 1]));
                }
            }
            assert forall|k: int| 0 <= k < all.len() - 1 implies #[trigger] all[k] != target by {
                if k > 0 {
                    assert(all[k] == trace(target, rest)[k - 1]);
                }
            }
        }
    }
}

/// Solver termination: when the secret is among the candidates and no other
/// candidate shares its code, the game ends with the secret guessed, after at
/// least one guess and at most as many as there are candidates.
pub proof fn lemma_play_finds_target(target: SinnerView, candidates: Seq<SinnerView>)
    requires
        stands_alone(target, candidates),
    ensures
        found(target, candidates),
        trace(target, candidates).last() == target,
        1 <= outcome(target, candidates) <= candidates.len(),
    decreases candidates.len(),
{
    lemma_trace_within(target, candidates);
    lemma_best_exists(candidates);
    let i = best_index(candidates);
    let guess = candidates[i];
    if guess != target {
        let hint = hint_of(target, guess);
        let keep = kept_after(hint, guess);
        let rest = narrowed(candidates, hint, guess);
        lemma_narrowed_drops_guess(candidates, hint, i);
        lemma_narrowed_is_within(candidates, hint, guess);
        lemma_round_trip(target, guess);
        let at = choose|at: int| 0 <= at < candidates.len() && candidates[at] == target;
        candidates.lemma_filter_contains(keep, at);
        assert forall|k: int| 0 <= k < rest.len() && (#[trigger] rest[k]).code
            == target.code implies rest[k] == target by {
            assert(rest.contains(rest[k]));
            let from = choose|from: int| 0 <= from < candidates.len() && candidates[from] == rest[k];
            assert(candidates[from].code == target.code);
        }
        lemma_play_finds_target(target, rest);
        assert(trace(target, candidates) == seq![guess] + trace(target, rest));
    }
}

/// On a roster in which no two sinners share a code, the game for every
/// sinner of the roster ends with that sinner guessed.
pub proof fn lemma_roster_always_solved(roster: Seq<SinnerView>, i: int)
    requires
        distinct_codes(roster),
        0 <= i < roster.len(),
    ensures
        found(roster[i], roster),
        1 <= outcome(roster[i], roster) <= roster.len(),
        codes_tell_apart(roster[i], roster),
{
    assert forall|k: int| 0 <= k < roster.len() && (#[trigger] roster[k]).code
        == roster[i].code implies roster[k] == roster[i] by {
        if k < i {
            assert(roster[k].code != roster[i].code);
        }
        if i < k {
            assert(roster[i].code != roster[k].code);
        }
    }
    lemma_play_finds_target(roster[i], roster);
}

/// Whether every sinner of the roster may be the secret of a game against the
/// whole roster: whether all its sinners without a code are the same sinner.
pub open spec fn playable(roster: Seq<SinnerView>) -> bool {
    forall|i: int| 0 <= i < roster.len() ==> codes_tell_apart(#[trigger] roster[i], roster)
}

/// Checks that all sinners of the roster without a code are the same sinner.
pub fn is_playable(roster: &[Sinner]) -> (ok: bool)
    ensures
        ok == playable(views(roster@)),
{
    let ghost all = views(roster@);
    let mut first: Option<usize> = None;
    let mut i: usize = 0;
    while i < roster.len()
        invariant
            i <= roster.len(),
            all == views(roster@),
            match first {
                Some(f) => f < i && all[f as int].code is None && forall|k: int|
                    0 <= k < i && (#[trigger] all[k]).code is None ==> all[k] == all[f as int],
                None => forall|k: int| 0 <= k < i ==> (#[trigger] all[k]).code is Some,
            },
        decreases roster.len() - i,
    {
        if roster[i].code.is_none() {
            match first {
                Some(f) => {
                    if roster[i] != roster[f] {
                        proof {
                            assert(!codes_tell_apart(all[i as int], all)) by {
                                if codes_tell_apart(all[i as int], all) {
                                    assert(all[f as int].code is Some || all[i as int].code
                                        is Some || all[f as int] == all[i as int]);
                                }
                            }
                        }
                        return false;
                    }
                },
                None => {
                    first = Some(i);
                },
            }
        }
        i += 1;
    }
    proof {
        assert forall|k: int| 0 <= k < all.len() implies codes_tell_apart(
            #[trigger] all[k],
            all,
        ) by {
            assert forall|j: int| 0 <= j < all.len() implies (#[trigger] all[j]).code is Some
                || all[k].code is Some || all[j] == all[k] by {
                match first {
                    Some(f) => {
                        if all[j].code is None && all[k].code is None {
                            assert(all[j] == all[f as int]);
                            assert(all[k] == all[f as int]);
                        }
                    },
                    None => {},
                }
            }
        }
    }
    true
}

/// A roster in which no two sinners share a code is playable.
pub proof fn lemma_distinct_codes_are_playable(roster: Seq<SinnerView>)
    requires
        distinct_codes(roster),
    ensures
        playable(roster),
{
    assert forall|i: int| 0 <= i < roster.len() implies codes_tell_apart(
        #[trigger] roster[i],
        roster,
    ) by {
        lemma_roster_always_solved(roster, i);
    }
}

} // verus!
