//! Comparison-and-deduction engine for a character-guessing puzzle.
//!
//! A secret sinner is drawn from a roster; every guess is answered by a hint
//! row that compares the guess with the secret on five attributes: code,
//! alignment, tendency, height and birthplace. This library holds
//!
//! - the attribute model and the bands within which a code or a height counts
//!   as near or far ([`data`], [`compare`]),
//! - the hint row and its packed 16-bit form ([`guess`]), its textual form
//!   ([`notation`]) and its form on a terminal ([`render`]),
//! - the hint that a secret answers to a guess, and the inverse question of
//!   whether a candidate would have answered an observed hint ([`deduce`]),
//! - the player that narrows its candidates with every hint and guesses the
//!   candidate that leaves the fewest on average, and the game it plays
//!   ([`play`]),
//! - what is built on them: the figures over every game of a roster
//!   ([`gather`]), the solver for a game played elsewhere ([`solve`]), the
//!   commands of the interactive game ([`command`]) and the values of the
//!   command line ([`flags`]).
//!
//! All band arithmetic is exact. The bands are multiples of a twentieth, so
//! they are held in twentieths, and a distance that lies on a band edge falls
//! the same way everywhere.
//!
//! Every function states what it returns over plain values: a sinner as its
//! [`data::SinnerView`], a hint as its [`guess::HintRow`], text as its
//! characters. What holds between several functions is stated and proved as a
//! `lemma_` beside them.

pub mod cache;
pub mod command;
pub mod compare;
pub mod data;
pub mod deduce;
pub mod flags;
pub mod gather;
pub mod guess;
pub mod notation;
pub mod play;
pub mod render;
pub mod solve;
pub mod text;
