//! Text as a sequence of characters: whitespace, trimming, splitting into
//! tokens, decimal numbers and comparison without regard to ASCII case.

use vstd::prelude::*;

verus! {

/// Whether `c` is whitespace: the characters with the Unicode property
/// `White_Space`.
pub open spec fn is_space(c: char) -> bool {
    let n = c as u32;
    ||| 0x09 <= n <= 0x0d
    ||| n == 0x20
    ||| n == 0x85
    ||| n == 0xa0
    ||| n == 0x1680
    ||| 0x2000 <= n <= 0x200a
    ||| n == 0x2028
    ||| n == 0x2029
    ||| n == 0x202f
    ||| n == 0x205f
    ||| n == 0x3000
}

/// Whether `c` separates tokens: space, tab, line feed, form feed or carriage
/// return.
pub open spec fn is_ascii_space(c: char) -> bool {
    c == ' ' || c == '\t' || c == '\n' || c == '\x0c' || c == '\r'
}

/// `s` without the whitespace at its start.
pub open spec fn trim_start(s: Seq<char>) -> Seq<char>
    decreases s.len(),
{
    if s.len() > 0 && is_space(s.first()) {
        trim_start(s.drop_first())
    } else {
        s
    }
}

/// `s` without the whitespace at its end.
pub open spec fn trim_end(s: Seq<char>) -> Seq<char>
    decreases s.len(),
{
    if s.len() > 0 && is_space(s.last()) {
        trim_end(s.drop_last())
    } else {
        s
    }
}

/// `s` without the whitespace at either end.
pub open spec fn trim(s: Seq<char>) -> Seq<char> {
    trim_end(trim_start(s))
}

/// The length of the run of characters at the start of `s` that are no
/// separators.
pub open spec fn word_len(s: Seq<char>) -> nat
    decreases s.len(),
{
    if s.len() == 0 || is_ascii_space(s.first()) {
        0
    } else {
        1 + word_len(s.drop_first())
    }
}

/// A word is no longer than the text it starts.
pub proof fn lemma_word_len_bound(s: Seq<char>)
    ensures
        word_len(s) <= s.len(),
    decreases s.len(),
{
    if s.len() > 0 && !is_ascii_space(s.first()) {
        lemma_word_len_bound(s.drop_first());
    }
}

/// The tokens of `s`: its maximal runs of characters that are no separators,
/// in order.
pub open spec fn tokens(s: Seq<char>) -> Seq<Seq<char>>
    decreases s.len(),
    via tokens_decreases
{
    if s.len() == 0 {
        Seq::empty()
    } else if is_ascii_space(s.first()) {
        tokens(s.drop_first())
    } else {
        seq![s.take(word_len(s) as int)] + tokens(s.skip(word_len(s) as int))
    }
}

#[via_fn]
proof fn tokens_decreases(s: Seq<char>) {
    lemma_word_len_bound(s);
}

/// Whether `c` is whitespace.
pub fn is_whitespace(c: char) -> (space: bool)
    ensures
        space == is_space(c),
{
    let n: u32 = c as u32;
    (0x09 <= n && n <= 0x0d) || n == 0x20 || n == 0x85 || n == 0xa0 || n == 0x1680 || (0x2000 <= n
        && n <= 0x200a) || n == 0x2028 || n == 0x2029 || n == 0x202f || n == 0x205f || n == 0x3000
}

/// Whether `c` separates tokens.
pub fn is_separator(c: char) -> (separates: bool)
    ensures
        separates == is_ascii_space(c),
{
    c == ' ' || c == '\t' || c == '\n' || c == '\x0c' || c == '\r'
}

/// The characters of a string, in order.
pub fn chars_of(s: &str) -> (chars: Vec<char>)
    ensures
        chars@ == s@,
{
    let mut chars: Vec<char> = Vec::new();
    for c in it: s.chars()
        invariant
            it.seq() == s@,
            chars@ == it.seq().take(it.index() as int),
    {
        proof {
            assert(it.seq().take(it.index() + 1) =~= it.seq().take(it.index() as int).push(c));
        }
        chars.push(c);
    }
    proof {
        assert(s@.take(s@.len() as int) =~= s@);
    }
    chars
}

/// The bounds, within `chars[lo..hi]`, of that range without the whitespace
/// at either end.
pub fn trim_bounds(chars: &Vec<char>, lo: usize, hi: usize) -> (bounds: (usize, usize))
    requires
        lo <= hi <= chars.len(),
    ensures
        lo <= bounds.0 <= bounds.1 <= hi,
        chars@.subrange(bounds.0 as int, bounds.1 as int) == trim(
            chars@.subrange(lo as int, hi as int),
        ),
{
    let ghost all = chars@;
    let mut from: usize = lo;
    while from < hi && is_whitespace(chars[from])
        invariant
            lo <= from <= hi <= chars.len(),
            all == chars@,
            trim_start(all.subrange(lo as int, hi as int)) == trim_start(
                all.subrange(from as int, hi as int),
            ),
        decreases hi - from,
    {
        proof {
            assert(all.subrange(from as int, hi as int).drop_first() =~= all.subrange(
                from + 1,
                hi as int,
            ));
        }
        from += 1;
    }
    let mut to: usize = hi;
    while to > from && is_whitespace(chars[to - 1])
        invariant
            from <= to <= hi <= chars.len(),
            all == chars@,
            trim_end(all.subrange(from as int, hi as int)) == trim_end(
                all.subrange(from as int, to as int),
            ),
        decreases to - from,
    {
        proof {
            assert(all.subrange(from as int, to as int).drop_last() =~= all.subrange(
                from as int,
                to - 1,
            ));
        }
        to -= 1;
    }
    (from, to)
}

/// The texts that a list of bounds cuts out of `s`.
pub open spec fn cut(s: Seq<char>, bounds: Seq<(usize, usize)>) -> Seq<Seq<char>> {
    bounds.map_values(|b: (usize, usize)| s.subrange(b.0 as int, b.1 as int))
}

/// The bounds of the tokens of `chars[lo..hi]`, in order.
pub fn token_bounds(chars: &Vec<char>, lo: usize, hi: usize) -> (bounds: Vec<(usize, usize)>)
    requires
        lo <= hi <= chars.len(),
    ensures
        cut(chars@, bounds@) == tokens(chars@.subrange(lo as int, hi as int)),
        forall|k: int|
            0 <= k < bounds.len() ==> lo <= (#[trigger] bounds[k]).0 < bounds[k].1 <= hi,
{
    let ghost all = chars@;
    let ghost whole = all.subrange(lo as int, hi as int);
    let mut bounds: Vec<(usize, usize)> = Vec::new();
    let mut at: usize = lo;
    while at < hi
        invariant
            lo <= at <= hi <= chars.len(),
            all == chars@,
            whole == all.subrange(lo as int, hi as int),
            tokens(whole) == cut(all, bounds@) + tokens(all.subrange(at as int, hi as int)),
            forall|k: int|
                0 <= k < bounds.len() ==> lo <= (#[trigger] bounds[k]).0 < bounds[k].1 <= hi,
        decreases hi - at,
    {
        let ghost rest = all.subrange(at as int, hi as int);
        if is_separator(chars[at]) {
            proof {
                assert(rest.drop_first() =~= all.subrange(at + 1, hi as int));
            }
            at += 1;
        } else {
            let start = at;
            while at < hi && !is_separator(chars[at])
                invariant
                    start <= at <= hi <= chars.len(),
                    all == chars@,
                    rest == all.subrange(start as int, hi as int),
                    word_len(rest) == (at - start) + word_len(all.subrange(at as int, hi as int)),
                decreases hi - at,
            {
                proof {
                    assert(all.subrange(at as int, hi as int).drop_first() =~= all.subrange(
                        at + 1,
                        hi as int,
                    ));
                }
                at += 1;
            }
            proof {
                assert(word_len(rest) == at - start);
                assert(rest.take(at - start) =~= all.subrange(start as int, at as int));
                assert(rest.skip(at - start) =~= all.subrange(at as int, hi as int));
                assert(cut(all, bounds@.push((start, at))) =~= cut(all, bounds@).push(
                    all.subrange(start as int, at as int),
                ));
                assert(cut(all, bounds@) + (seq![all.subrange(start as int, at as int)] + tokens(
                    all.subrange(at as int, hi as int),
                )) =~= cut(all, bounds@).push(all.subrange(start as int, at as int)) + tokens(
                    all.subrange(at as int, hi as int),
                ));
            }
            bounds.push((start, at));
        }
    }
    proof {
        assert(all.subrange(at as int, hi as int) =~= Seq::<char>::empty());
        assert(cut(all, bounds@) + Seq::<Seq<char>>::empty() =~= cut(all, bounds@));
    }
    bounds
}

/// Whether `c` is one of the ten decimal digits.
pub open spec fn is_digit(c: char) -> bool {
    '0' as u32 <= c as u32 <= '9' as u32
}

/// The number that a run of decimal digits writes.
pub open spec fn digits_value(digits: Seq<char>) -> nat
    decreases digits.len(),
{
    if digits.len() == 0 {
        0
    } else {
        10 * digits_value(digits.drop_last()) + (digits.last() as u32 - '0' as u32) as nat
    }
}

/// Whether every character of a text is a decimal digit.
pub open spec fn all_digits(text: Seq<char>) -> bool {
    forall|i: int| 0 <= i < text.len() ==> is_digit(#[trigger] text[i])
}

/// The number that a text writes in decimal: one or more digits, and nothing
/// else but one `+` that may stand before them.
pub open spec fn decimal(text: Seq<char>) -> Option<nat> {
    let digits = if text.len() > 0 && text.first() == '+' {
        text.drop_first()
    } else {
        text
    };
    if digits.len() > 0 && all_digits(digits) {
        Some(digits_value(digits))
    } else {
        None
    }
}

/// A run of digits writes at least what any of its beginnings writes.
pub proof fn lemma_digits_value_grows(digits: Seq<char>, n: int)
    requires
        0 <= n <= digits.len(),
        all_digits(digits),
    ensures
        digits_value(digits.take(n)) <= digits_value(digits),
    decreases digits.len() - n,
{
    if n == digits.len() {
        assert(digits.take(n) =~= digits);
    } else {
        let front = digits.drop_last();
        assert(front.take(n) =~= digits.take(n));
        assert forall|i: int| 0 <= i < front.len() implies is_digit(#[trigger] front[i]) by {
            assert(front[i] == digits[i]);
        }
        lemma_digits_value_grows(front, n);
    }
}

/// Reads the decimal number that `chars[lo..hi]` writes, if it writes one and
/// the number is at most `max`.
pub fn read_decimal(chars: &Vec<char>, lo: usize, hi: usize, max: u32) -> (number: Option<u32>)
    requires
        lo <= hi <= chars.len(),
        max <= 0xffff,
    ensures
        number == match decimal(chars@.subrange(lo as int, hi as int)) {
            Some(n) => if n <= max {
                Some(n as u32)
            } else {
                None
            },
            None => None,
        },
{
    let ghost text = chars@.subrange(lo as int, hi as int);
    let start: usize = if lo < hi && chars[lo] == '+' {
        lo + 1
    } else {
        lo
    };
    let ghost digits = chars@.subrange(start as int, hi as int);
    proof {
        if lo < hi {
            assert(text.first() == chars@[lo as int]);
            assert(text.drop_first() =~= chars@.subrange(lo + 1, hi as int));
        }
    }
    if start == hi {
        return None;
    }
    let mut value: u32 = 0;
    let mut at: usize = start;
    while at < hi
        invariant
            lo <= start <= at <= hi <= chars.len(),
            digits == chars@.subrange(start as int, hi as int),
            text == chars@.subrange(lo as int, hi as int),
            digits.len() > 0,
            digits == if text.len() > 0 && text.first() == '+' {
                text.drop_first()
            } else {
                text
            },
            forall|i: int| 0 <= i < at - start ==> is_digit(#[trigger] digits[i]),
            value == digits_value(digits.take(at - start)),
            value <= max <= 0xffff,
        decreases hi - at,
    {
        let c = chars[at];
        let n: u32 = c as u32;
        proof {
            assert(digits[at - start] == c);
            assert(digits.take(at - start + 1).drop_last() =~= digits.take(at - start));
            assert(digits.take(at - start + 1).last() == c);
        }
        if n < 48 || n > 57 {
            assert(!is_digit(digits[at - start]));
            return None;
        }
        let next: u32 = value * 10 + (n - 48);
        assert(next == digits_value(digits.take(at - start + 1)));
        if next > max {
            proof {
                if all_digits(digits) {
                    lemma_digits_value_grows(digits, at - start + 1);
                }
            }
            return None;
        }
        assert(is_digit(digits[at - start]));
        value = next;
        at += 1;
    }
    proof {
        assert(digits.take(at - start) =~= digits);
        assert(all_digits(digits));
    }
    Some(value)
}

/// The code point of `c` with the ASCII capitals mapped to their small
/// letters.
pub open spec fn ascii_lower(c: char) -> u32 {
    if 'A' as u32 <= c as u32 <= 'Z' as u32 {
        (c as u32 + 32) as u32
    } else {
        c as u32
    }
}

/// Whether two texts are the same but for the case of their ASCII letters.
pub open spec fn same_ignoring_ascii_case(a: Seq<char>, b: Seq<char>) -> bool {
    &&& a.len() == b.len()
    &&& forall|i: int| 0 <= i < a.len() ==> ascii_lower(#[trigger] a[i]) == ascii_lower(b[i])
}

/// The code point of `c` with the ASCII capitals mapped to their small
/// letters.
fn lower(c: char) -> (n: u32)
    ensures
        n == ascii_lower(c),
{
    let n: u32 = c as u32;
    if 65 <= n && n <= 90 {
        n + 32
    } else {
        n
    }
}

/// Whether `a` and `b[lo..hi]` are the same but for the case of their ASCII
/// letters.
pub fn matches_ignoring_ascii_case(a: &Vec<char>, b: &Vec<char>, lo: usize, hi: usize) -> (same:
    bool)
    requires
        lo <= hi <= b.len(),
    ensures
        same == same_ignoring_ascii_case(a@, b@.subrange(lo as int, hi as int)),
{
    let ghost other = b@.subrange(lo as int, hi as int);
    if a.len() != hi - lo {
        return false;
    }
    let mut i: usize = 0;
    while i < a.len()
        invariant
            i <= a.len(),
            a.len() == hi - lo,
            lo <= hi <= b.len(),
            other == b@.subrange(lo as int, hi as int),
            forall|k: int| 0 <= k < i ==> ascii_lower(#[trigger] a@[k]) == ascii_lower(other[k]),
        decreases a.len() - i,
    {
        if lower(a[i]) != lower(b[lo + i]) {
            assert(other[i as int] == b@[lo + i]);
            return false;
        }
        assert(other[i as int] == b@[lo + i]);
        i += 1;
    }
    true
}

/// The place of the first `mark` in a text, if it holds one.
pub open spec fn first_index_of(text: Seq<char>, mark: char) -> Option<int>
    decreases text.len(),
{
    if text.len() == 0 {
        None
    } else if text.first() == mark {
        Some(0)
    } else {
        match first_index_of(text.drop_first(), mark) {
            Some(i) => Some(i + 1),
            None => None,
        }
    }
}

/// The first place is a place of the mark, and no earlier place is one.
pub proof fn lemma_first_index_of(text: Seq<char>, mark: char)
    ensures
        match first_index_of(text, mark) {
            Some(i) => 0 <= i < text.len() && text[i] == mark && forall|k: int|
                0 <= k < i ==> #[trigger] text[k] != mark,
            None => forall|k: int| 0 <= k < text.len() ==> #[trigger] text[k] != mark,
        },
    decreases text.len(),
{
    if text.len() > 0 && text.first() != mark {
        let rest = text.drop_first();
        lemma_first_index_of(rest, mark);
        match first_index_of(rest, mark) {
            Some(i) => {
                assert forall|k: int| 0 <= k < i + 1 implies #[trigger] text[k] != mark by {
                    if k > 0 {
                        assert(text[k] == rest[k - 1]);
                    }
                }
            },
            None => {
                assert forall|k: int| 0 <= k < text.len() implies #[trigger] text[k] != mark by {
                    if k > 0 {
                        assert(text[k] == rest[k - 1]);
                    }
                }
            },
        }
    }
}

/// Finds the first `mark` in `chars[lo..hi]`; the place is counted from the
/// start of `chars`.
pub fn find_char(chars: &Vec<char>, lo: usize, hi: usize, mark: char) -> (place: Option<usize>)
    requires
        lo <= hi <= chars.len(),
    ensures
        match place {
            Some(at) => lo <= at < hi && first_index_of(
                chars@.subrange(lo as int, hi as int),
                mark,
            ) == Some(at - lo),
            None => first_index_of(chars@.subrange(lo as int, hi as int), mark) is None,
        },
{
    let ghost all = chars@;
    let mut at: usize = lo;
    while at < hi
        invariant
            lo <= at <= hi <= chars.len(),
            all == chars@,
            first_index_of(all.subrange(lo as int, hi as int), mark) == match first_index_of(
                all.subrange(at as int, hi as int),
                mark,
            ) {
                Some(i) => Some(i + (at - lo)),
                None => None,
            },
        decreases hi - at,
    {
        proof {
            assert(all.subrange(at as int, hi as int).first() == chars@[at as int]);
            assert(all.subrange(at as int, hi as int).drop_first() =~= all.subrange(
                at + 1,
                hi as int,
            ));
        }
        if chars[at] == mark {
            return Some(at);
        }
        at += 1;
    }
    None
}

/// Whether `chars[lo..hi]` is the text `word`.
pub fn is_text(chars: &Vec<char>, lo: usize, hi: usize, word: &str) -> (same: bool)
    requires
        lo <= hi <= chars.len(),
    ensures
        same == (chars@.subrange(lo as int, hi as int) == word@),
{
    let ghost part = chars@.subrange(lo as int, hi as int);
    let wanted = chars_of(word);
    if wanted.len() != hi - lo {
        return false;
    }
    let mut i: usize = 0;
    while i < wanted.len()
        invariant
            i <= wanted.len(),
            wanted.len() == hi - lo,
            lo <= hi <= chars.len(),
            part == chars@.subrange(lo as int, hi as int),
            wanted@ == word@,
            forall|k: int| 0 <= k < i ==> part[k] == wanted@[k],
        decreases wanted.len() - i,
    {
        assert(part[i as int] == chars@[lo + i]);
        if chars[lo + i] != wanted[i] {
            return false;
        }
        i += 1;
    }
    proof {
        assert(part =~= wanted@);
    }
    true
}

} // verus!
