//! The attribute model: the closed enumerations and the sinner record.

use vstd::prelude::*;
use vstd::std_specs::cmp::PartialEqSpecImpl;

use crate::compare::{Threshold, Thresholds};
use crate::text::{chars_of, decimal, read_decimal};

verus! {

/// A sinner's alignment.
#[derive(Copy, Clone, Debug, PartialEq, Eq, Structural)]
pub enum Alignment {
    Death,
    Fraud,
    Limbo,
    Anger,
    Love,
    Greed,
    Heresy,
    Sloth,
    Pestilence,
    Immortal,
    Famine,
    Violence,
    Treachery,
}

/// A sinner's tendency.
#[derive(Copy, Clone, Debug, PartialEq, Eq, Structural)]
pub enum Tendency {
    Catalyst,
    Arcane,
    Endura,
    Fury,
    Reticle,
    Umbra,
}

/// A sinner's birthplace.
#[derive(Copy, Clone, Debug, PartialEq, Eq, Structural)]
pub enum BirthPlace {
    Other,
    Syndicate,
    Eastside,
}

/// One character of the roster.
#[derive(Debug)]
pub struct Sinner {
    pub name: String,
    /// The numeric code, absent for the one sinner whose code is not a number.
    pub code: Option<u16>,
    pub alignment: Alignment,
    pub tendency: Tendency,
    /// The height in centimetres.
    pub height: u8,
    pub birthplace: BirthPlace,
}

/// A sinner as a plain value: the name as its characters, the rest as it is.
pub struct SinnerView {
    pub name: Seq<char>,
    pub code: Option<u16>,
    pub alignment: Alignment,
    pub tendency: Tendency,
    pub height: u8,
    pub birthplace: BirthPlace,
}

impl View for Sinner {
    type V = SinnerView;

    open spec fn view(&self) -> SinnerView {
        SinnerView {
            name: self.name@,
            code: self.code,
            alignment: self.alignment,
            tendency: self.tendency,
            height: self.height,
            birthplace: self.birthplace,
        }
    }
}

impl Clone for Sinner {
    fn clone(&self) -> (copy: Self)
        ensures
            copy == *self,
    {
        Sinner {
            name: self.name.clone(),
            code: self.code,
            alignment: self.alignment,
            tendency: self.tendency,
            height: self.height,
            birthplace: self.birthplace,
        }
    }
}

impl PartialEq for Sinner {
    /// Structural equality on all six fields.
    fn eq(&self, other: &Self) -> (same: bool) {
        self.name == other.name && self.code == other.code && self.alignment == other.alignment
            && self.tendency == other.tendency && self.height == other.height && self.birthplace
            == other.birthplace
    }
}

impl PartialEqSpecImpl for Sinner {
    open spec fn obeys_eq_spec() -> bool {
        true
    }

    open spec fn eq_spec(&self, other: &Self) -> bool {
        self@ == other@
    }
}

/// The views of a list of sinners, in order.
pub open spec fn views(sinners: Seq<Sinner>) -> Seq<SinnerView> {
    sinners.map_values(|s: Sinner| s@)
}

/// A copy of a list of sinners.
pub fn copy_of(sinners: &[Sinner]) -> (copy: Vec<Sinner>)
    ensures
        copy@ == sinners@,
{
    let mut copy: Vec<Sinner> = Vec::new();
    let mut i: usize = 0;
    while i < sinners.len()
        invariant
            i <= sinners.len(),
            copy@ == sinners@.take(i as int),
        decreases sinners.len() - i,
    {
        let one = sinners[i].clone();
        proof {
            assert(sinners@.take(i + 1) =~= sinners@.take(i as int).push(one));
        }
        copy.push(one);
        i += 1;
    }
    proof {
        assert(sinners@.take(i as int) =~= sinners@);
    }
    copy
}

/// The height around which the height bands widen.
pub const MOST_COMMON_HEIGHT: i16 = 168;

/// The code bands of a secret with code `code`: near `5 + code/10`, far
/// `50 + 7*code/20`, in twentieths.
pub open spec fn code_band(code: u16) -> Threshold {
    Threshold { near: (100 + 2 * code) as u32, far: (1000 + 7 * code) as u32 }
}

/// Distance of a height from the most common height.
pub open spec fn height_offset(height: u8) -> int {
    if height >= MOST_COMMON_HEIGHT {
        height - MOST_COMMON_HEIGHT
    } else {
        MOST_COMMON_HEIGHT - height
    }
}

/// The height bands of a secret of height `height`: near `3 + d/10`, far
/// `15 + 7*d/20`, in twentieths, where `d` is the distance from the most
/// common height.
pub open spec fn height_band(height: u8) -> Threshold {
    Threshold {
        near: (60 + 2 * height_offset(height)) as u32,
        far: (300 + 7 * height_offset(height)) as u32,
    }
}

/// The bands of a sinner taken as the secret.
pub open spec fn thresholds_of(s: SinnerView) -> Thresholds {
    Thresholds {
        code: match s.code {
            Some(code) => Some(code_band(code)),
            None => None,
        },
        height: height_band(s.height),
    }
}

impl Sinner {
    /// The code and height bands that apply when this sinner is the secret.
    pub fn thresholds(&self) -> (t: Thresholds)
        ensures
            t == thresholds_of(self@),
            t.height.wf(),
            t.code matches Some(band) ==> band.wf(),
    {
        let code = match self.code {
            Some(code) => Some(
                Threshold { near: 100 + 2 * (code as u32), far: 1000 + 7 * (code as u32) },
            ),
            None => None,
        };
        let height: i16 = self.height as i16;
        let offset: u32 = if height >= MOST_COMMON_HEIGHT {
            (height - MOST_COMMON_HEIGHT) as u32
        } else {
            (MOST_COMMON_HEIGHT - height) as u32
        };
        Thresholds { code, height: Threshold { near: 60 + 2 * offset, far: 300 + 7 * offset } }
    }
}

/// A sinner as the roster source writes it: code and height still text.
#[derive(Debug)]
pub struct RawSinner {
    pub name: String,
    /// A decimal number, or any other text for the sinner without a code.
    pub code: String,
    pub alignment: Alignment,
    pub tendency: Tendency,
    /// A decimal number followed by `cm`.
    pub height: String,
    pub birthplace: BirthPlace,
}

/// Why a roster entry is no sinner.
#[derive(Copy, Clone, Debug, PartialEq, Eq, Structural)]
pub enum LoadError {
    /// The height is not a number up to 255 followed by `cm`.
    InvalidHeight,
}

impl LoadError {
    /// The message for this error.
    pub fn message(self) -> (text: &'static str)
        ensures
            text@ == "invalid height"@,
    {
        "invalid height"
    }
}

/// The code that a text writes: its decimal number if it writes one up to
/// 65535, else none.
pub open spec fn code_of_text(text: Seq<char>) -> Option<u16> {
    match decimal(text) {
        Some(n) => if n <= 0xffff {
            Some(n as u16)
        } else {
            None
        },
        None => None,
    }
}

/// The height that a text writes: the decimal number before its final `cm`,
/// if it ends so and the number is at most 255.
pub open spec fn height_of_text(text: Seq<char>) -> Option<u8> {
    if text.len() >= 2 && text[text.len() - 2] == 'c' && text[text.len() - 1] == 'm' {
        match decimal(text.take(text.len() - 2)) {
            Some(n) => if n <= 0xff {
                Some(n as u8)
            } else {
                None
            },
            None => None,
        }
    } else {
        None
    }
}

/// What a roster entry converts to: the sinner's view, or nothing when the
/// height is not valid.
pub open spec fn converted(raw: RawSinner) -> Option<SinnerView> {
    match height_of_text(raw.height@) {
        Some(height) => Some(
            SinnerView {
                name: raw.name@,
                code: code_of_text(raw.code@),
                alignment: raw.alignment,
                tendency: raw.tendency,
                height,
                birthplace: raw.birthplace,
            },
        ),
        None => None,
    }
}

impl RawSinner {
    /// Converts the entry. A code that is no number up to 65535 becomes no
    /// code; a height that is not valid is an error.
    pub fn into_sinner(self) -> (sinner: Result<Sinner, LoadError>)
        ensures
            converted(self) == match sinner {
                Ok(s) => Some(s@),
                Err(_) => None,
            },
    {
        let code_chars = chars_of(self.code.as_str());
        proof {
            assert(code_chars@.subrange(0, code_chars.len() as int) =~= code_chars@);
        }
        let code: Option<u16> = match read_decimal(&code_chars, 0, code_chars.len(), 0xffff) {
            Some(n) => Some(n as u16),
            None => None,
        };
        let height_chars = chars_of(self.height.as_str());
        let len = height_chars.len();
        if len < 2 || height_chars[len - 2] != 'c' || height_chars[len - 1] != 'm' {
            return Err(LoadError::InvalidHeight);
        }
        proof {
            assert(height_chars@.subrange(0, len - 2) =~= height_chars@.take(len - 2));
        }
        let height: u8 = match read_decimal(&height_chars, 0, len - 2, 0xff) {
            Some(n) => n as u8,
            None => {
                return Err(LoadError::InvalidHeight);
            },
        };
        Ok(
            Sinner {
                name: self.name,
                code,
                alignment: self.alignment,
                tendency: self.tendency,
                height,
                birthplace: self.birthplace,
            },
        )
    }
}

/// Converts the entries of a roster source, in order. The first entry whose
/// height is not valid makes the whole roster an error.
pub fn into_sinners(entries: Vec<RawSinner>) -> (roster: Result<Vec<Sinner>, LoadError>)
    ensures
        match roster {
            Ok(sinners) => sinners.len() == entries.len() && forall|i: int|
                0 <= i < entries.len() ==> converted(#[trigger] entries[i]) == Some(sinners[i]@),
            Err(_) => exists|i: int| 0 <= i < entries.len() && converted(entries[i]) is None,
        },
{
    let ghost all = entries@;
    let mut sinners: Vec<Sinner> = Vec::new();
    for entry in it: entries
        invariant
            it.seq() == all,
            sinners.len() == it.index(),
            forall|i: int|
                0 <= i < sinners.len() ==> converted(#[trigger] all[i]) == Some(sinners[i]@),
    {
        match entry.into_sinner() {
            Ok(sinner) => {
                sinners.push(sinner);
            },
            Err(e) => {
                assert(converted(all[it.index() as int]) is None);
                return Err(e);
            },
        }
    }
    Ok(sinners)
}

/// Whether no two positions of a roster hold the same code; a missing code
/// counts as a code, so at most one sinner lacks one.
pub open spec fn distinct_codes(roster: Seq<SinnerView>) -> bool {
    forall|i: int, j: int|
        0 <= i < j < roster.len() ==> (#[trigger] roster[i]).code != (#[trigger] roster[j]).code
}

/// Checks that no two sinners of a roster share a code.
pub fn has_distinct_codes(roster: &[Sinner]) -> (distinct: bool)
    ensures
        distinct == distinct_codes(views(roster@)),
{
    let ghost all = views(roster@);
    let mut j: usize = 0;
    while j < roster.len()
        invariant
            j <= roster.len(),
            all == views(roster@),
            forall|a: int, b: int|
                0 <= a < b < j ==> (#[trigger] all[a]).code != (#[trigger] all[b]).code,
        decreases roster.len() - j,
    {
        let mut i: usize = 0;
        while i < j
            invariant
                i <= j < roster.len(),
                all == views(roster@),
                forall|a: int| 0 <= a < i ==> (#[trigger] all[a]).code != all[j as int].code,
            decreases j - i,
        {
            if roster[i].code == roster[j].code {
                assert(all[i as int].code == all[j as int].code);
                return false;
            }
            i += 1;
        }
        j += 1;
    }
    true
}

} // verus!
