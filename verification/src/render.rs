//! A hint row as the terminal shows it: two-column glyphs in colour.
//!
//! Green marks what is right, yellow what is near, red everything else. The
//! colours are ANSI foreground sequences; the text between them is what the
//! row says.

use owo_colors::OwoColorize;
use vstd::prelude::*;
use vstd::string::StringExecFns;

use crate::compare::Comparison;
use crate::guess::{Guess, HintRow};

verus! {

/// `text` between the sequence that sets the foreground colour `colour` and
/// the sequence that sets the default foreground colour.
pub open spec fn painted(colour: Seq<char>, text: Seq<char>) -> Seq<char> {
    "\x1b["@ + colour + "m"@ + text + "\x1b[39m"@
}

/// `text` in green.
pub open spec fn green(text: Seq<char>) -> Seq<char> {
    painted("32"@, text)
}

/// `text` in yellow.
pub open spec fn yellow(text: Seq<char>) -> Seq<char> {
    painted("33"@, text)
}

/// `text` in red.
pub open spec fn red(text: Seq<char>) -> Seq<char> {
    painted("31"@, text)
}

/// Calls `owo_colors::OwoColorize::green` on `text` and formats the result
/// with `{}`. Trusted: the result is `text` after `ESC [ 3 2 m` and before
/// `ESC [ 3 9 m`, as the `Display` impl of `FgColorDisplay` writes it.
#[verifier::external_body]
fn paint_green(text: &str) -> (out: String)
    ensures
        out@ == green(text@),
{
    format!("{}", text.green())
}

/// Calls `owo_colors::OwoColorize::yellow` on `text` and formats the result
/// with `{}`. Trusted: the result is `text` after `ESC [ 3 3 m` and before
/// `ESC [ 3 9 m`, as the `Display` impl of `FgColorDisplay` writes it.
#[verifier::external_body]
fn paint_yellow(text: &str) -> (out: String)
    ensures
        out@ == yellow(text@),
{
    format!("{}", text.yellow())
}

/// Calls `owo_colors::OwoColorize::red` on `text` and formats the result with
/// `{}`. Trusted: the result is `text` after `ESC [ 3 1 m` and before
/// `ESC [ 3 9 m`, as the `Display` impl of `FgColorDisplay` writes it.
#[verifier::external_body]
fn paint_red(text: &str) -> (out: String)
    ensures
        out@ == red(text@),
{
    format!("{}", text.red())
}

/// A comparison as shown: its glyph, green for `Correct`, yellow for `Near`,
/// red for the rest.
pub open spec fn comparison_shown(comparison: Comparison) -> Seq<char> {
    match comparison {
        Comparison::Correct => green(comparison.glyph()),
        Comparison::Near => yellow(comparison.glyph()),
        _ => red(comparison.glyph()),
    }
}

/// A boolean as shown: a green ` 1` or a red ` 0`.
pub open spec fn bool_shown(value: bool) -> Seq<char> {
    if value {
        green(" 1"@)
    } else {
        red(" 0"@)
    }
}

/// The code field as shown: the comparison, or a red ` x` for none.
pub open spec fn code_shown(code: Option<Comparison>) -> Seq<char> {
    match code {
        Some(comparison) => comparison_shown(comparison),
        None => red(" x"@),
    }
}

/// A row as shown: code, alignment, tendency, height and birthplace with one
/// space between them.
pub open spec fn row_shown(row: HintRow) -> Seq<char> {
    code_shown(row.code) + " "@ + bool_shown(row.alignment) + " "@ + bool_shown(row.tendency)
        + " "@ + comparison_shown(row.height) + " "@ + bool_shown(row.birthplace)
}

impl Comparison {
    /// This comparison as the terminal shows it.
    pub fn render(self) -> (shown: String)
        ensures
            shown@ == comparison_shown(self),
    {
        match self {
            Comparison::Correct => paint_green(self.to_str()),
            Comparison::Near => paint_yellow(self.to_str()),
            _ => paint_red(self.to_str()),
        }
    }
}

/// A boolean as the terminal shows it.
pub fn render_bool(value: bool) -> (shown: String)
    ensures
        shown@ == bool_shown(value),
{
    if value {
        paint_green(" 1")
    } else {
        paint_red(" 0")
    }
}

impl Guess {
    /// This hint as the terminal shows it.
    pub fn render(self) -> (shown: String)
        ensures
            shown@ == row_shown(self@),
    {
        let mut shown = match self.code() {
            Some(comparison) => comparison.render(),
            None => paint_red(" x"),
        };
        shown.append(" ");
        shown.append(render_bool(self.alignment()).as_str());
        shown.append(" ");
        shown.append(render_bool(self.tendency()).as_str());
        shown.append(" ");
        shown.append(self.height().render().as_str());
        shown.append(" ");
        shown.append(render_bool(self.birthplace()).as_str());
        shown
    }
}

} // verus!
