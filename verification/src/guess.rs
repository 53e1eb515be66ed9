//! The hint row answered to one guess, and its packed 16-bit form.

use vstd::prelude::*;

use crate::compare::Comparison;

verus! {

/// The five fields of a hint row.
///
/// `code` is absent when the codes of guess and secret cannot be compared.
#[derive(Copy, Clone, Debug, PartialEq, Eq, Structural)]
pub struct HintRow {
    pub code: Option<Comparison>,
    pub alignment: bool,
    pub tendency: bool,
    pub height: Comparison,
    pub birthplace: bool,
}

/// The comparison stored as the three-bit value `n`.
pub open spec fn comparison_at(n: int) -> Comparison {
    if n == 0 {
        Comparison::Correct
    } else if n == 1 {
        Comparison::FarLess
    } else if n == 2 {
        Comparison::Less
    } else if n == 3 {
        Comparison::Near
    } else if n == 4 {
        Comparison::Greater
    } else {
        Comparison::FarGreater
    }
}

/// Whether `word` is the packed form of some hint row: both three-bit fields
/// hold a comparison, a word without the code flag has an empty code field,
/// and no bit above bit 9 is set.
pub open spec fn valid_word(word: u16) -> bool {
    &&& word & 7 <= 5
    &&& (word >> 3) & 7 <= 5
    &&& word & 0x80 == 0 ==> word & 7 == 0
    &&& word & 0xfc00 == 0
}

/// The row that a word holds, read by mask and shift.
///
/// | bits | meaning |
/// |---|---|
/// | 0-2 | code comparison, meaningful only with bit 7 |
/// | 3-5 | height comparison |
/// | 6 | alignment match |
/// | 7 | code comparison present |
/// | 8 | tendency match |
/// | 9 | birthplace match |
pub open spec fn unpack(word: u16) -> HintRow {
    HintRow {
        code: if word & 0x80 != 0 {
            Some(comparison_at((word & 7) as int))
        } else {
            None
        },
        alignment: (word >> 6) & 1 != 0,
        tendency: (word >> 8) & 1 != 0,
        height: comparison_at(((word >> 3) & 7) as int),
        birthplace: (word >> 9) & 1 != 0,
    }
}

/// The word that holds a row.
pub open spec fn pack(row: HintRow) -> u16 {
    let code: int = match row.code {
        Some(c) => 128 + c.ordinal(),
        None => 0,
    };
    let alignment: int = if row.alignment { 64 } else { 0 };
    let tendency: int = if row.tendency { 256 } else { 0 };
    let birthplace: int = if row.birthplace { 512 } else { 0 };
    (code + 8 * row.height.ordinal() + alignment + tendency + birthplace) as u16
}

/// The bit-level facts behind packing: six small fields combined by shift and
/// or can each be read back by shift and mask.
proof fn lemma_fields_read_back(c: u16, h: u16, a: u16, v: u16, t: u16, b: u16)
    by (bit_vector)
    requires
        c <= 5,
        h <= 5,
        a <= 1,
        v <= 1,
        t <= 1,
        b <= 1,
        v == 0 ==> c == 0,
    ensures
        ({
            let w = (v << 7) | c | (h << 3) | (a << 6) | (t << 8) | (b << 9);
            &&& w & 7 == c
            &&& (w >> 3) & 7 == h
            &&& (w >> 6) & 1 == a
            &&& (w & 0x80 != 0) == (v == 1)
            &&& (w >> 8) & 1 == t
            &&& (w >> 9) & 1 == b
            &&& w & 0xfc00 == 0
            &&& w == c + 8 * h + 64 * a + 128 * v + 256 * t + 512 * b
        }),
{
}

/// Every valid word is the sum of its fields.
proof fn lemma_word_is_sum(w: u16)
    by (bit_vector)
    requires
        w & 0xfc00 == 0,
    ensures
        w == (w & 7) + 8 * ((w >> 3) & 7) + 64 * ((w >> 6) & 1) + (w & 0x80) + 256 * ((w >> 8) & 1)
            + 512 * ((w >> 9) & 1),
        w & 7 <= 7,
        (w >> 3) & 7 <= 7,
        (w >> 6) & 1 <= 1,
        (w >> 8) & 1 <= 1,
        (w >> 9) & 1 <= 1,
        w & 0x80 == 0 || w & 0x80 == 128,
{
}

/// Decoding the packed form of a row gives the row back, and the packed form
/// is a valid word.
pub proof fn lemma_unpack_pack(row: HintRow)
    ensures
        unpack(pack(row)) == row,
        valid_word(pack(row)),
{
    let c: u16 = match row.code {
        Some(c) => c.ordinal() as u16,
        None => 0,
    };
    let v: u16 = if row.code is Some { 1 } else { 0 };
    let h: u16 = row.height.ordinal() as u16;
    let a: u16 = if row.alignment { 1 } else { 0 };
    let t: u16 = if row.tendency { 1 } else { 0 };
    let b: u16 = if row.birthplace { 1 } else { 0 };
    lemma_fields_read_back(c, h, a, v, t, b);
}

/// A valid word is the packed form of the row it holds: two valid words that
/// hold the same row are the same word.
pub proof fn lemma_pack_unpack(word: u16)
    requires
        valid_word(word),
    ensures
        pack(unpack(word)) == word,
{
    lemma_word_is_sum(word);
}

impl Comparison {
    /// The three-bit value under which this comparison is stored.
    fn index(self) -> (n: u16)
        ensures
            n == self.ordinal(),
            n <= 5,
            comparison_at(n as int) == self,
    {
        match self {
            Comparison::Correct => 0,
            Comparison::FarLess => 1,
            Comparison::Less => 2,
            Comparison::Near => 3,
            Comparison::Greater => 4,
            Comparison::FarGreater => 5,
        }
    }

    /// The comparison stored under a three-bit value.
    fn from_index(n: u16) -> (c: Comparison)
        ensures
            c == comparison_at(n as int),
    {
        if n == 0 {
            Comparison::Correct
        } else if n == 1 {
            Comparison::FarLess
        } else if n == 2 {
            Comparison::Less
        } else if n == 3 {
            Comparison::Near
        } else if n == 4 {
            Comparison::Greater
        } else {
            Comparison::FarGreater
        }
    }
}

/// A packed hint row: the answer to one guess.
///
/// The word is the single source of truth; the accessors read it by mask and
/// shift. Two hints are equal exactly when their words are.
#[derive(Copy, Clone, Debug, PartialEq, Eq, Structural)]
pub struct Guess(u16);

impl View for Guess {
    type V = HintRow;

    closed spec fn view(&self) -> HintRow {
        unpack(self.0)
    }
}

impl Guess {
    /// The packed word.
    pub closed spec fn word(self) -> u16 {
        self.0
    }

    #[verifier::type_invariant]
    pub closed spec fn wf(self) -> bool {
        valid_word(self.0)
    }

    /// Packs a row. Any five fields make a valid hint.
    pub fn new(
        code: Option<Comparison>,
        alignment: bool,
        tendency: bool,
        height: Comparison,
        birthplace: bool,
    ) -> (g: Guess)
        ensures
            g@ == (HintRow { code, alignment, tendency, height, birthplace }),
            g.word() == pack(HintRow { code, alignment, tendency, height, birthplace }),
            g.wf(),
    {
        let c: u16 = match code {
            Some(c) => c.index(),
            None => 0,
        };
        let v: u16 = if code.is_some() { 1 } else { 0 };
        let h: u16 = height.index();
        let a: u16 = if alignment { 1 } else { 0 };
        let t: u16 = if tendency { 1 } else { 0 };
        let b: u16 = if birthplace { 1 } else { 0 };
        proof {
            lemma_fields_read_back(c, h, a, v, t, b);
        }
        let mut data: u16 = (v << 7) | c;
        data |= h << 3;
        data |= a << 6;
        data |= t << 8;
        data |= b << 9;
        Guess(data)
    }

    /// The code comparison, absent when the two codes could not be compared.
    pub fn code(self) -> (c: Option<Comparison>)
        ensures
            c == self@.code,
    {
        if self.0 & 0x80 != 0 {
            Some(Comparison::from_index(self.0 & 7))
        } else {
            None
        }
    }

    /// The height comparison.
    pub fn height(self) -> (c: Comparison)
        ensures
            c == self@.height,
    {
        Comparison::from_index((self.0 >> 3) & 7)
    }

    /// Whether the alignments are equal.
    pub fn alignment(self) -> (same: bool)
        ensures
            same == self@.alignment,
    {
        (self.0 >> 6) & 1 != 0
    }

    /// Whether the tendencies are equal.
    pub fn tendency(self) -> (same: bool)
        ensures
            same == self@.tendency,
    {
        (self.0 >> 8) & 1 != 0
    }

    /// Whether the birthplaces are equal.
    pub fn birthplace(self) -> (same: bool)
        ensures
            same == self@.birthplace,
    {
        (self.0 >> 9) & 1 != 0
    }

    /// The row this hint holds.
    pub fn row(self) -> (row: HintRow)
        ensures
            row == self@,
    {
        HintRow {
            code: self.code(),
            alignment: self.alignment(),
            tendency: self.tendency(),
            height: self.height(),
            birthplace: self.birthplace(),
        }
    }

    /// Hints that hold the same row are the same hint.
    pub proof fn lemma_equal_rows(a: Guess, b: Guess)
        requires
            a.wf(),
            b.wf(),
            a@ == b@,
        ensures
            a == b,
    {
        lemma_pack_unpack(a.0);
        lemma_pack_unpack(b.0);
    }
}

} // verus!
