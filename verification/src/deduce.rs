//! Producing a hint from a secret and a guess, and the inverse question:
//! would a candidate secret have produced an observed hint?

use vstd::prelude::*;

use crate::compare::{compare_spec, Comparison};
use crate::data::{code_band, height_band, Sinner, SinnerView, MOST_COMMON_HEIGHT};
use crate::guess::{Guess, HintRow};

verus! {

/// The code comparison answered when `target` is the secret's code.
pub open spec fn code_compare(target: u16, guess: u16) -> Comparison {
    compare_spec(
        code_band(target).near as int,
        code_band(target).far as int,
        target as int,
        guess as int,
    )
}

/// The height comparison answered when `target` is the secret's height.
pub open spec fn height_compare(target: u8, guess: u8) -> Comparison {
    compare_spec(
        height_band(target).near as int,
        height_band(target).far as int,
        target as int,
        guess as int,
    )
}

/// The hint row answered to `guess` when `target` is the secret.
///
/// The code is compared when both sinners have one. Two sinners without a code
/// count as the same code; a sinner with a code against one without gives no
/// code comparison.
pub open spec fn hint_of(target: SinnerView, guess: SinnerView) -> HintRow {
    HintRow {
        code: match (target.code, guess.code) {
            (Some(t), Some(g)) => Some(code_compare(t, g)),
            (None, None) => Some(Comparison::Correct),
            _ => None,
        },
        alignment: target.alignment == guess.alignment,
        tendency: target.tendency == guess.tendency,
        height: height_compare(target.height, guess.height),
        birthplace: target.birthplace == guess.birthplace,
    }
}

/// Whether a secret with code `target` is accepted for the code comparison
/// `comparison` observed on a guess with code `guess`.
///
/// The bounds are the band inequalities solved for the secret, cleared of
/// their denominators:
///
/// | comparison | bound on the secret `t`, for the guess `g` |
/// |---|---|
/// | `Correct` | `t == g` |
/// | `FarLess` | `t < (g - 50) / 1.35` |
/// | `Less` | `(g - 50) / 1.35 <= t <= (g - 5) / 1.1` |
/// | `Near` | `t != g` and `(g - 5) / 1.1 <= t <= (g + 5) / 0.9` |
/// | `Greater` | `(g + 5) * 0.9 < t <= (g + 50) / 0.65` |
/// | `FarGreater` | `t > (g + 50) / 0.65` |
pub open spec fn code_accepts(guess: int, target: int, comparison: Comparison) -> bool {
    match comparison {
        Comparison::Correct => target == guess,
        Comparison::FarLess => 27 * target < 20 * (guess - 50),
        Comparison::Less => 20 * (guess - 50) <= 27 * target && 11 * target <= 10 * (guess - 5),
        Comparison::Near => target != guess && 10 * (guess - 5) <= 11 * target && 9 * target <= 10
            * (guess + 5),
        Comparison::Greater => 9 * (guess + 5) < 10 * target && 13 * target <= 20 * (guess + 50),
        Comparison::FarGreater => 13 * target > 20 * (guess + 50),
    }
}

/// The secret lies at most the near band above the guess.
pub open spec fn below_upper_near(guess: u8, target: u8) -> bool {
    20 * (target - guess) <= height_band(target).near
}

/// The secret lies at most the near band below the guess.
pub open spec fn above_lower_near(guess: u8, target: u8) -> bool {
    20 * (target - guess) >= -height_band(target).near
}

/// The secret lies at most the far band above the guess.
pub open spec fn below_upper_far(guess: u8, target: u8) -> bool {
    20 * (target - guess) <= height_band(target).far
}

/// The secret lies at most the far band below the guess.
pub open spec fn above_lower_far(guess: u8, target: u8) -> bool {
    20 * (target - guess) >= -height_band(target).far
}

/// Whether a secret of height `target` is accepted for the height comparison
/// `comparison` observed on a guess of height `guess`.
pub open spec fn height_accepts(guess: u8, target: u8, comparison: Comparison) -> bool {
    match comparison {
        Comparison::Correct => guess == target,
        Comparison::Near => guess != target && below_upper_near(guess, target) && above_lower_near(
            guess,
            target,
        ),
        Comparison::Greater => !below_upper_near(guess, target) && below_upper_far(guess, target),
        Comparison::FarGreater => !below_upper_near(guess, target) && !below_upper_far(
            guess,
            target,
        ),
        Comparison::Less => !above_lower_near(guess, target) && above_lower_far(guess, target),
        Comparison::FarLess => !above_lower_near(guess, target) && !above_lower_far(guess, target),
    }
}

/// Whether the code field of a hint is consistent with the codes of the guess
/// and of a candidate secret.
///
/// A code comparison needs both codes and must accept the candidate's; an
/// absent one rules out exactly the pairs in which both have a code.
pub open spec fn code_consistent(
    hint: Option<Comparison>,
    guess: Option<u16>,
    candidate: Option<u16>,
) -> bool {
    match hint {
        Some(comparison) => match (guess, candidate) {
            (Some(g), Some(t)) => code_accepts(g as int, t as int, comparison),
            _ => false,
        },
        None => !(guess is Some && candidate is Some),
    }
}

/// Whether `candidate` is still a possible secret after `hint` was observed
/// on `guess`.
pub open spec fn consistent(hint: HintRow, guess: SinnerView, candidate: SinnerView) -> bool {
    &&& (guess.tendency == candidate.tendency) == hint.tendency
    &&& (guess.alignment == candidate.alignment) == hint.alignment
    &&& (guess.birthplace == candidate.birthplace) == hint.birthplace
    &&& code_consistent(hint.code, guess.code, candidate.code)
    &&& height_accepts(guess.height, candidate.height, hint.height)
}

/// The height inverse is exact: a candidate height is accepted for a
/// comparison exactly when the forward comparison, with the candidate as the
/// secret, gives that comparison.
pub proof fn lemma_height_inverse_exact(guess: u8, target: u8, comparison: Comparison)
    ensures
        height_accepts(guess, target, comparison) <==> height_compare(target, guess) == comparison,
{
}

/// The code inverse accepts what the forward comparison answers.
pub proof fn lemma_code_inverse_complete(guess: u16, target: u16)
    ensures
        code_accepts(guess as int, target as int, code_compare(target, guess)),
{
}

/// For every comparison but `Less` and `Greater` the code inverse is exact:
/// it accepts a candidate code only when the forward comparison, with the
/// candidate as the secret, gives that comparison.
///
/// `Less` also accepts a candidate that lies exactly on the lower near band
/// edge, and `Greater` reaches down to nine tenths of `guess + 5`; the forward
/// comparison calls those candidates `Near`.
pub proof fn lemma_code_inverse_exact(guess: u16, target: u16, comparison: Comparison)
    requires
        comparison != Comparison::Less,
        comparison != Comparison::Greater,
    ensures
        code_accepts(guess as int, target as int, comparison) <==> code_compare(target, guess)
            == comparison,
{
}

/// Round trip: the hint that a secret answers to a guess keeps that secret
/// among the candidates.
///
/// The one pair left out is two sinners that both lack a code: their hint
/// carries `Correct` for the code, which no code-less candidate is accepted
/// for.
pub proof fn lemma_round_trip(target: SinnerView, guess: SinnerView)
    requires
        target.code is Some || guess.code is Some,
    ensures
        consistent(hint_of(target, guess), guess, target),
{
    lemma_height_inverse_exact(guess.height, target.height, height_compare(target.height, guess.height));
    if target.code is Some && guess.code is Some {
        lemma_code_inverse_complete(guess.code->0, target.code->0);
    }
}

/// A sinner guessed against itself is answered by the all-correct row,
/// whether or not it has a code.
pub proof fn lemma_self_hint(s: SinnerView)
    ensures
        hint_of(s, s) == (HintRow {
            code: Some(Comparison::Correct),
            alignment: true,
            tendency: true,
            height: Comparison::Correct,
            birthplace: true,
        }),
{
}

/// Where the code inverse is exact, a hint that keeps a candidate is the hint
/// that the candidate would have answered.
pub proof fn lemma_consistent_pins_hint(hint: HintRow, guess: SinnerView, candidate: SinnerView)
    requires
        consistent(hint, guess, candidate),
        hint.code != Some(Comparison::Less),
        hint.code != Some(Comparison::Greater),
        guess.code is Some || candidate.code is Some,
    ensures
        hint == hint_of(candidate, guess),
{
    lemma_height_inverse_exact(guess.height, candidate.height, hint.height);
    if hint.code is Some {
        lemma_code_inverse_exact(guess.code->0, candidate.code->0, hint.code->0);
    }
}

/// Checks a candidate code against a code comparison observed on `guess`.
pub fn code_matches(guess: u16, target: u16, comparison: Comparison) -> (accepted: bool)
    ensures
        accepted == code_accepts(guess as int, target as int, comparison),
{
    let g: i64 = guess as i64;
    let t: i64 = target as i64;
    match comparison {
        Comparison::Correct => t == g,
        Comparison::FarLess => 27 * t < 20 * (g - 50),
        Comparison::Less => 20 * (g - 50) <= 27 * t && 11 * t <= 10 * (g - 5),
        Comparison::Near => t != g && 10 * (g - 5) <= 11 * t && 9 * t <= 10 * (g + 5),
        Comparison::Greater => 9 * (g + 5) < 10 * t && 13 * t <= 20 * (g + 50),
        Comparison::FarGreater => 13 * t > 20 * (g + 50),
    }
}

/// Decides `below_upper_near` from the guess. With `H` for the most common
/// height, the bound on the secret is `(10 g + H + 30) / 11` for a guess up
/// to `H - 3` and `(10 g - H + 30) / 9` for a taller one.
pub fn height_below_upper_near_threshold(guess: u8, target: u8) -> (below: bool)
    ensures
        below == below_upper_near(guess, target),
{
    let common: i32 = MOST_COMMON_HEIGHT as i32;
    let g: i32 = guess as i32;
    let t: i32 = target as i32;
    if g <= common - 3 {
        t <= (10 * g + common + 30) / 11
    } else {
        t <= (10 * g - common + 30) / 9
    }
}

/// Decides `above_lower_near` from the guess. With `H` for the most common
/// height, the bound on the secret is `(10 g - H - 30) / 9` for a guess up to
/// `H + 3` and `(10 g + H - 30) / 11` for a taller one, both rounded up.
pub fn height_above_lower_near_threshold(guess: u8, target: u8) -> (above: bool)
    ensures
        above == above_lower_near(guess, target),
{
    let common: i32 = MOST_COMMON_HEIGHT as i32;
    let g: i32 = guess as i32;
    let t: i32 = target as i32;
    if g <= common + 3 {
        9 * t >= 10 * g - common - 30
    } else {
        t >= (10 * g + common - 30 + 10) / 11
    }
}

/// Decides `below_upper_far` from the guess. With `H` for the most common
/// height, the bound on the secret is `(20 g + 7 H + 300) / 27` for a guess
/// up to `H - 15` and `(20 g - 7 H + 300) / 13` for a taller one.
pub fn height_below_upper_far_threshold(guess: u8, target: u8) -> (below: bool)
    ensures
        below == below_upper_far(guess, target),
{
    let common: i32 = MOST_COMMON_HEIGHT as i32;
    let g: i32 = guess as i32;
    let t: i32 = target as i32;
    if g <= common - 15 {
        t <= (20 * g + 7 * common + 300) / 27
    } else {
        t <= (20 * g - 7 * common + 300) / 13
    }
}

/// Decides `above_lower_far` from the guess. With `H` for the most common
/// height, the bound on the secret is `(20 g - 7 H - 300) / 13` for a guess
/// up to `H + 15` and `(20 g + 7 H - 300) / 27` for a taller one, both
/// rounded up.
pub fn height_above_lower_far_threshold(guess: u8, target: u8) -> (above: bool)
    ensures
        above == above_lower_far(guess, target),
{
    let common: i32 = MOST_COMMON_HEIGHT as i32;
    let g: i32 = guess as i32;
    let t: i32 = target as i32;
    if g <= common + 15 {
        13 * t >= 20 * g - 7 * common - 300
    } else {
        t >= (20 * g + 7 * common - 300 + 26) / 27
    }
}

/// Checks a candidate height against a height comparison observed on `guess`.
pub fn height_matches(guess: u8, target: u8, comparison: Comparison) -> (accepted: bool)
    ensures
        accepted == height_accepts(guess, target, comparison),
        accepted == (height_compare(target, guess) == comparison),
{
    match comparison {
        Comparison::Correct => guess == target,
        Comparison::Greater => !height_below_upper_near_threshold(guess, target)
            && height_below_upper_far_threshold(guess, target),
        Comparison::FarGreater => !height_below_upper_near_threshold(guess, target)
            && !height_below_upper_far_threshold(guess, target),
        Comparison::Less => !height_above_lower_near_threshold(guess, target)
            && height_above_lower_far_threshold(guess, target),
        Comparison::FarLess => !height_above_lower_near_threshold(guess, target)
            && !height_above_lower_far_threshold(guess, target),
        Comparison::Near => guess != target && height_below_upper_near_threshold(guess, target)
            && height_above_lower_near_threshold(guess, target),
    }
}

impl Sinner {
    /// The hint answered to `guess` when this sinner is the secret.
    pub fn guess(&self, guess: &Self) -> (hint: Guess)
        ensures
            hint@ == hint_of(self@, guess@),
            self.code is Some || guess.code is Some ==> consistent(hint@, guess@, self@),
    {
        proof {
            if self.code is Some || guess.code is Some {
                lemma_round_trip(self@, guess@);
            }
        }
        let bands = self.thresholds();
        let code = match (self.code, guess.code) {
            (Some(target), Some(played)) => match bands.code {
                Some(band) => Some(band.compare(target, played)),
                None => None,
            },
            (None, None) => Some(Comparison::Correct),
            _ => None,
        };
        let height = bands.height.compare(self.height as u16, guess.height as u16);
        Guess::new(
            code,
            self.alignment == guess.alignment,
            self.tendency == guess.tendency,
            height,
            self.birthplace == guess.birthplace,
        )
    }

    /// Whether `candidate` would have answered `result` to a guess of this
    /// sinner: whether it is still a possible secret.
    pub fn matches_result(&self, result: Guess, candidate: &Self) -> (possible: bool)
        ensures
            possible == consistent(result@, self@, candidate@),
    {
        if (self.tendency == candidate.tendency) != result.tendency() {
            return false;
        }
        if (self.alignment == candidate.alignment) != result.alignment() {
            return false;
        }
        if (self.birthplace == candidate.birthplace) != result.birthplace() {
            return false;
        }
        match result.code() {
            Some(comparison) => match (self.code, candidate.code) {
                (Some(played), Some(target)) => {
                    if !code_matches(played, target, comparison) {
                        return false;
                    }
                },
                _ => {
                    return false;
                },
            },
            None => {
                if self.code.is_some() && candidate.code.is_some() {
                    return false;
                }
            },
        }
        height_matches(self.height, candidate.height, result.height())
    }
}

} // verus!
