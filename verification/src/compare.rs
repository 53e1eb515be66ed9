//! The six-valued ordinal hint and the near/far bands that produce it.

use vstd::prelude::*;

verus! {

/// How a target value relates to a guessed value on a numeric axis.
#[derive(Copy, Clone, Debug, PartialEq, Eq, Structural)]
pub enum Comparison {
    Correct,
    FarLess,
    Less,
    Near,
    Greater,
    FarGreater,
}

/// Number of band units in one whole: bands are held in twentieths.
pub const BAND_SCALE: u32 = 20;

/// The forward comparison on exact values.
///
/// `near` and `far` are band half-widths in twentieths; `target` and `guess`
/// are whole numbers. A distance that lies exactly on a band edge falls into
/// the looser bucket.
pub open spec fn compare_spec(near: int, far: int, target: int, guess: int) -> Comparison {
    let distance = 20 * (target - guess);
    if target == guess {
        Comparison::Correct
    } else if distance > far {
        Comparison::FarGreater
    } else if distance > near {
        Comparison::Greater
    } else if distance < -far {
        Comparison::FarLess
    } else if distance < -near {
        Comparison::Less
    } else {
        Comparison::Near
    }
}

impl Comparison {
    /// The two-column glyph shown for this comparison.
    pub open spec fn glyph(self) -> Seq<char> {
        match self {
            Comparison::Correct => seq![' ', '='],
            Comparison::FarLess => seq!['\u{2193}', '\u{2193}'],
            Comparison::Less => seq![' ', '\u{2193}'],
            Comparison::Near => seq![' ', '\u{2245}'],
            Comparison::Greater => seq![' ', '\u{2191}'],
            Comparison::FarGreater => seq!['\u{2191}', '\u{2191}'],
        }
    }

    /// Position of this comparison in the declaration order, as stored in a
    /// packed hint.
    pub open spec fn ordinal(self) -> int {
        match self {
            Comparison::Correct => 0,
            Comparison::FarLess => 1,
            Comparison::Less => 2,
            Comparison::Near => 3,
            Comparison::Greater => 4,
            Comparison::FarGreater => 5,
        }
    }

    pub fn to_str(self) -> (s: &'static str)
        ensures
            s@ == self.glyph(),
    {
        proof {
            reveal_strlit(" =");
            reveal_strlit("\u{2193}\u{2193}");
            reveal_strlit(" \u{2193}");
            reveal_strlit(" \u{2245}");
            reveal_strlit(" \u{2191}");
            reveal_strlit("\u{2191}\u{2191}");
        }
        let s = match self {
            Comparison::Correct => " =",
            Comparison::FarLess => "\u{2193}\u{2193}",
            Comparison::Less => " \u{2193}",
            Comparison::Near => " \u{2245}",
            Comparison::Greater => " \u{2191}",
            Comparison::FarGreater => "\u{2191}\u{2191}",
        };
        assert(s@ =~= self.glyph());
        s
    }
}

/// Near and far band half-widths around a target value, in twentieths.
///
/// A threshold derived from a sinner satisfies `0 < near < far`.
#[derive(Copy, Clone, Debug, PartialEq, Eq, Structural)]
pub struct Threshold {
    pub near: u32,
    pub far: u32,
}

impl Threshold {
    /// The band invariant: a positive near band strictly inside the far band.
    pub open spec fn wf(self) -> bool {
        0 < self.near < self.far
    }

    /// Compares `target` with `guess` against these bands.
    pub fn compare(self, target: u16, guess: u16) -> (c: Comparison)
        ensures
            c == compare_spec(self.near as int, self.far as int, target as int, guess as int),
    {
        let distance: i64 = 20 * (target as i64 - guess as i64);
        let near: i64 = self.near as i64;
        let far: i64 = self.far as i64;
        if target == guess {
            Comparison::Correct
        } else if distance > far {
            Comparison::FarGreater
        } else if distance > near {
            Comparison::Greater
        } else if distance < -far {
            Comparison::FarLess
        } else if distance < -near {
            Comparison::Less
        } else {
            Comparison::Near
        }
    }
}

/// The bands of one sinner: for the code, when it has one, and for the height.
#[derive(Copy, Clone, Debug, PartialEq, Eq, Structural)]
pub struct Thresholds {
    pub code: Option<Threshold>,
    pub height: Threshold,
}

} // verus!
