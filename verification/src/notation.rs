//! The textual form of a hint row: five tokens, separated by whitespace, in
//! the order code, alignment, tendency, height, birthplace.
//!
//! | token | meaning |
//! |---|---|
//! | `=` | `Correct` |
//! | `vv` | `FarLess` |
//! | `v` | `Less` |
//! | `~` | `Near` |
//! | `^` | `Greater` |
//! | `^^` | `FarGreater` |
//! | `x` | no comparison; for the code only |
//! | `y` `Y` `t` `T` `1` | true |
//! | `n` `N` `f` `F` `0` | false |

use vstd::prelude::*;
use vstd::string::StringExecFns;

use crate::compare::Comparison;
use crate::guess::{Guess, HintRow};
use crate::text::{
    chars_of, cut, is_ascii_space, is_space, token_bounds, tokens, trim, trim_bounds, word_len,
};

verus! {

/// What a comparison token stands for: a comparison, no comparison (the inner
/// `None`), or nothing at all when the token is unknown (the outer `None`).
/// Whitespace around the token is not part of it.
pub open spec fn comparison_token(token: Seq<char>) -> Option<Option<Comparison>> {
    let t = trim(token);
    if t.len() == 1 && t[0] == 'x' {
        Some(None)
    } else if t.len() == 1 && t[0] == '=' {
        Some(Some(Comparison::Correct))
    } else if t.len() == 2 && t[0] == 'v' && t[1] == 'v' {
        Some(Some(Comparison::FarLess))
    } else if t.len() == 1 && t[0] == 'v' {
        Some(Some(Comparison::Less))
    } else if t.len() == 1 && t[0] == '~' {
        Some(Some(Comparison::Near))
    } else if t.len() == 1 && t[0] == '^' {
        Some(Some(Comparison::Greater))
    } else if t.len() == 2 && t[0] == '^' && t[1] == '^' {
        Some(Some(Comparison::FarGreater))
    } else {
        None
    }
}

/// What a boolean token stands for, or nothing when the token is unknown.
pub open spec fn bool_token(token: Seq<char>) -> Option<bool> {
    if token.len() != 1 {
        None
    } else {
        let c = token[0];
        if c == 'y' || c == 'Y' || c == 't' || c == 'T' || c == '1' {
            Some(true)
        } else if c == 'n' || c == 'N' || c == 'f' || c == 'F' || c == '0' {
            Some(false)
        } else {
            None
        }
    }
}

/// The row that a text stands for, or nothing when the text does not consist
/// of exactly five known tokens with a comparison for the height.
pub open spec fn parse_row(text: Seq<char>) -> Option<HintRow> {
    let t = tokens(trim(text));
    if t.len() != 5 {
        None
    } else {
        match (
            comparison_token(t[0]),
            bool_token(t[1]),
            bool_token(t[2]),
            comparison_token(t[3]),
            bool_token(t[4]),
        ) {
            (Some(code), Some(alignment), Some(tendency), Some(Some(height)), Some(birthplace)) => {
                Some(HintRow { code, alignment, tendency, height, birthplace })
            },
            _ => None,
        }
    }
}

/// The token written for a comparison, `x` for none.
pub open spec fn comparison_text(comparison: Option<Comparison>) -> Seq<char> {
    match comparison {
        None => seq!['x'],
        Some(Comparison::Correct) => seq!['='],
        Some(Comparison::FarLess) => seq!['v', 'v'],
        Some(Comparison::Less) => seq!['v'],
        Some(Comparison::Near) => seq!['~'],
        Some(Comparison::Greater) => seq!['^'],
        Some(Comparison::FarGreater) => seq!['^', '^'],
    }
}

/// The token written for a boolean.
pub open spec fn bool_text(value: bool) -> Seq<char> {
    if value {
        seq!['1']
    } else {
        seq!['0']
    }
}

/// The text written for a row: its five tokens with one space between them.
pub open spec fn row_text(row: HintRow) -> Seq<char> {
    comparison_text(row.code) + seq![' '] + bool_text(row.alignment) + seq![' '] + bool_text(
        row.tendency,
    ) + seq![' '] + comparison_text(Some(row.height)) + seq![' '] + bool_text(row.birthplace)
}

/// Whether `word` is not empty and holds no whitespace of either kind.
pub open spec fn solid(word: Seq<char>) -> bool {
    &&& word.len() > 0
    &&& forall|i: int| 0 <= i < word.len() ==> !is_ascii_space(#[trigger] word[i]) && !is_space(word[i])
}

/// A run without separators that is followed by the end of the text or by a
/// separator is one word.
proof fn lemma_word_len_of(word: Seq<char>, rest: Seq<char>)
    requires
        forall|i: int| 0 <= i < word.len() ==> !is_ascii_space(#[trigger] word[i]),
        rest.len() == 0 || is_ascii_space(rest.first()),
    ensures
        word_len(word + rest) == word.len(),
    decreases word.len(),
{
    if word.len() == 0 {
        assert(word + rest =~= rest);
    } else {
        assert((word + rest).drop_first() =~= word.drop_first() + rest);
        assert((word + rest).first() == word[0]);
        assert forall|i: int| 0 <= i < word.drop_first().len() implies !is_ascii_space(
            #[trigger] word.drop_first()[i],
        ) by {
            assert(word.drop_first()[i] == word[i + 1]);
        }
        lemma_word_len_of(word.drop_first(), rest);
    }
}

/// A solid word is its own only token.
pub proof fn lemma_tokens_of_word(word: Seq<char>)
    requires
        solid(word),
    ensures
        tokens(word) == seq![word],
{
    let none = Seq::<char>::empty();
    lemma_word_len_of(word, none);
    assert(word + none =~= word);
    assert(word_len(word) == word.len());
    assert(!is_ascii_space(word[0]));
    assert(word.take(word.len() as int) =~= word);
    assert(word.skip(word.len() as int) =~= none);
    assert(tokens(none) =~= Seq::<Seq<char>>::empty());
    assert(tokens(word) == seq![word.take(word_len(word) as int)] + tokens(
        word.skip(word_len(word) as int),
    ));
    assert(seq![word] + Seq::<Seq<char>>::empty() =~= seq![word]);
}

/// A solid word, a space and more text: the word is the first token, the
/// tokens of the rest follow.
pub proof fn lemma_tokens_after_word(word: Seq<char>, rest: Seq<char>)
    requires
        solid(word),
    ensures
        tokens(word + seq![' '] + rest) == seq![word] + tokens(rest),
{
    let tail = seq![' '] + rest;
    let all = word + tail;
    assert(word + seq![' '] + rest =~= all);
    assert(tail.first() == ' ');
    lemma_word_len_of(word, tail);
    assert(!is_ascii_space(word[0]));
    assert(all.first() == word[0]);
    assert(all.take(word.len() as int) =~= word);
    assert(all.skip(word.len() as int) =~= tail);
    assert(tail.drop_first() =~= rest);
    assert(tokens(tail) == tokens(tail.drop_first()));
    assert(tokens(all) == seq![all.take(word_len(all) as int)] + tokens(
        all.skip(word_len(all) as int),
    ));
}

/// Text that starts and ends with something else than whitespace is trimmed
/// already.
pub proof fn lemma_trim_of_trimmed(s: Seq<char>)
    requires
        s.len() > 0,
        !is_space(s.first()),
        !is_space(s.last()),
    ensures
        trim(s) == s,
{
}

/// A written comparison is read back as what was written.
proof fn lemma_comparison_round_trip(comparison: Option<Comparison>)
    ensures
        solid(comparison_text(comparison)),
        comparison_token(comparison_text(comparison)) == Some(comparison),
{
    lemma_trim_of_trimmed(comparison_text(comparison));
}

/// A written boolean is read back as what was written.
proof fn lemma_bool_round_trip(value: bool)
    ensures
        solid(bool_text(value)),
        bool_token(bool_text(value)) == Some(value),
{
}

/// Five solid words with one space between them are trimmed already, and
/// the words are their tokens.
proof fn lemma_five_words(c: Seq<char>, a: Seq<char>, t: Seq<char>, h: Seq<char>, b: Seq<char>)
    requires
        solid(c),
        solid(a),
        solid(t),
        solid(h),
        solid(b),
    ensures
        trim(c + seq![' '] + a + seq![' '] + t + seq![' '] + h + seq![' '] + b) == c + seq![' ']
            + a + seq![' '] + t + seq![' '] + h + seq![' '] + b,
        tokens(c + seq![' '] + a + seq![' '] + t + seq![' '] + h + seq![' '] + b) == seq![
            c,
            a,
            t,
            h,
            b,
        ],
{
    let sp = seq![' '];
    let text = c + sp + a + sp + t + sp + h + sp + b;
    let r3 = h + sp + b;
    let r2 = t + sp + r3;
    let r1 = a + sp + r2;
    assert(text =~= c + sp + r1);
    assert(text.first() == c[0]);
    assert(text.last() == b[b.len() - 1]);
    lemma_trim_of_trimmed(text);
    lemma_tokens_after_word(c, r1);
    lemma_tokens_after_word(a, r2);
    lemma_tokens_after_word(t, r3);
    lemma_tokens_after_word(h, b);
    lemma_tokens_of_word(b);
    assert(seq![h] + seq![b] =~= seq![h, b]);
    assert(seq![t] + seq![h, b] =~= seq![t, h, b]);
    assert(seq![a] + seq![t, h, b] =~= seq![a, t, h, b]);
    assert(seq![c] + seq![a, t, h, b] =~= seq![c, a, t, h, b]);
}

/// Textual round trip: the text written for a row is read back as that row.
pub proof fn lemma_parse_row_text(row: HintRow)
    ensures
        parse_row(row_text(row)) == Some(row),
{
    let c = comparison_text(row.code);
    let a = bool_text(row.alignment);
    let t = bool_text(row.tendency);
    let h = comparison_text(Some(row.height));
    let b = bool_text(row.birthplace);
    lemma_comparison_round_trip(row.code);
    lemma_comparison_round_trip(Some(row.height));
    lemma_bool_round_trip(row.alignment);
    lemma_bool_round_trip(row.tendency);
    lemma_bool_round_trip(row.birthplace);
    lemma_five_words(c, a, t, h, b);
    let found = tokens(trim(row_text(row)));
    assert(found == seq![c, a, t, h, b]);
    assert(found.len() == 5);
    assert(found[0] == c && found[1] == a && found[2] == t && found[3] == h && found[4] == b);
}

/// Reads a comparison token from `chars[lo..hi]`.
fn read_comparison(chars: &Vec<char>, lo: usize, hi: usize) -> (token: Option<Option<Comparison>>)
    requires
        lo <= hi <= chars.len(),
    ensures
        token == comparison_token(chars@.subrange(lo as int, hi as int)),
{
    let (from, to) = trim_bounds(chars, lo, hi);
    let ghost t = chars@.subrange(from as int, to as int);
    if to - from == 1 {
        let c = chars[from];
        assert(t[0] == c);
        if c == 'x' {
            Some(None)
        } else if c == '=' {
            Some(Some(Comparison::Correct))
        } else if c == 'v' {
            Some(Some(Comparison::Less))
        } else if c == '~' {
            Some(Some(Comparison::Near))
        } else if c == '^' {
            Some(Some(Comparison::Greater))
        } else {
            None
        }
    } else if to - from == 2 {
        let c = chars[from];
        let d = chars[from + 1];
        assert(t[0] == c && t[1] == d);
        if c == 'v' && d == 'v' {
            Some(Some(Comparison::FarLess))
        } else if c == '^' && d == '^' {
            Some(Some(Comparison::FarGreater))
        } else {
            None
        }
    } else {
        None
    }
}

/// Reads a boolean token from `chars[lo..hi]`.
fn read_bool(chars: &Vec<char>, lo: usize, hi: usize) -> (token: Option<bool>)
    requires
        lo <= hi <= chars.len(),
    ensures
        token == bool_token(chars@.subrange(lo as int, hi as int)),
{
    if hi - lo != 1 {
        return None;
    }
    let c = chars[lo];
    assert(chars@.subrange(lo as int, hi as int)[0] == c);
    if c == 'y' || c == 'Y' || c == 't' || c == 'T' || c == '1' {
        Some(true)
    } else if c == 'n' || c == 'N' || c == 'f' || c == 'F' || c == '0' {
        Some(false)
    } else {
        None
    }
}

/// Reads a hint from `chars[lo..hi]`.
pub fn read_row(chars: &Vec<char>, lo: usize, hi: usize) -> (hint: Option<Guess>)
    requires
        lo <= hi <= chars.len(),
    ensures
        parse_row(chars@.subrange(lo as int, hi as int)) == match hint {
            Some(g) => Some(g@),
            None => None,
        },
{
    let (from, to) = trim_bounds(chars, lo, hi);
    let bounds = token_bounds(chars, from, to);
    if bounds.len() != 5 {
        return None;
    }
    let ghost t = tokens(trim(chars@.subrange(lo as int, hi as int)));
    proof {
        assert(t == cut(chars@, bounds@));
        assert(t[0] == chars@.subrange(bounds[0].0 as int, bounds[0].1 as int));
        assert(t[1] == chars@.subrange(bounds[1].0 as int, bounds[1].1 as int));
        assert(t[2] == chars@.subrange(bounds[2].0 as int, bounds[2].1 as int));
        assert(t[3] == chars@.subrange(bounds[3].0 as int, bounds[3].1 as int));
        assert(t[4] == chars@.subrange(bounds[4].0 as int, bounds[4].1 as int));
    }
    let code = match read_comparison(chars, bounds[0].0, bounds[0].1) {
        Some(code) => code,
        None => {
            return None;
        },
    };
    let alignment = match read_bool(chars, bounds[1].0, bounds[1].1) {
        Some(value) => value,
        None => {
            return None;
        },
    };
    let tendency = match read_bool(chars, bounds[2].0, bounds[2].1) {
        Some(value) => value,
        None => {
            return None;
        },
    };
    let height = match read_comparison(chars, bounds[3].0, bounds[3].1) {
        Some(Some(height)) => height,
        _ => {
            return None;
        },
    };
    let birthplace = match read_bool(chars, bounds[4].0, bounds[4].1) {
        Some(value) => value,
        None => {
            return None;
        },
    };
    Some(Guess::new(code, alignment, tendency, height, birthplace))
}

impl Guess {
    /// Reads a hint from its textual form. The text is rejected unless it
    /// consists of exactly five known tokens, the fourth a comparison.
    pub fn parse(text: &str) -> (hint: Result<Guess, ()>)
        ensures
            parse_row(text@) == match hint {
                Ok(g) => Some(g@),
                Err(_) => None,
            },
    {
        let chars = chars_of(text);
        proof {
            assert(chars@.subrange(0, chars.len() as int) =~= chars@);
        }
        match read_row(&chars, 0, chars.len()) {
            Some(hint) => Ok(hint),
            None => Err(()),
        }
    }

    /// Writes this hint in its textual form: the five tokens with one space
    /// between them, booleans as `0` and `1`. Reading the text gives this
    /// hint back.
    pub fn to_text(self) -> (text: String)
        ensures
            text@ == row_text(self@),
            parse_row(text@) == Some(self@),
    {
        proof {
            lemma_parse_row_text(self@);
        }
        let mut text = String::new();
        write_comparison(&mut text, self.code());
        text.append(" ");
        write_bool(&mut text, self.alignment());
        text.append(" ");
        write_bool(&mut text, self.tendency());
        text.append(" ");
        write_comparison(&mut text, Some(self.height()));
        text.append(" ");
        write_bool(&mut text, self.birthplace());
        proof {
            reveal_strlit(" ");
            assert(" "@ =~= seq![' ']);
            assert(text@ =~= row_text(self@));
        }
        text
    }
}

/// Appends the token of a comparison.
fn write_comparison(text: &mut String, comparison: Option<Comparison>)
    ensures
        final(text)@ == old(text)@ + comparison_text(comparison),
{
    proof {
        reveal_strlit("x");
        reveal_strlit("=");
        reveal_strlit("vv");
        reveal_strlit("v");
        reveal_strlit("~");
        reveal_strlit("^");
        reveal_strlit("^^");
    }
    let token = match comparison {
        None => "x",
        Some(Comparison::Correct) => "=",
        Some(Comparison::FarLess) => "vv",
        Some(Comparison::Less) => "v",
        Some(Comparison::Near) => "~",
        Some(Comparison::Greater) => "^",
        Some(Comparison::FarGreater) => "^^",
    };
    assert(token@ =~= comparison_text(comparison));
    text.append(token);
}

/// Appends the token of a boolean.
fn write_bool(text: &mut String, value: bool)
    ensures
        final(text)@ == old(text)@ + bool_text(value),
{
    proof {
        reveal_strlit("1");
        reveal_strlit("0");
    }
    let token = if value {
        "1"
    } else {
        "0"
    };
    assert(token@ =~= bool_text(value));
    text.append(token);
}

impl std::str::FromStr for Guess {
    type Err = ();

    fn from_str(text: &str) -> (hint: Result<Self, ()>)
        ensures
            parse_row(text@) == match hint {
                Ok(g) => Some(g@),
                Err(_) => None,
            },
    {
        Guess::parse(text)
    }
}

} // verus!
