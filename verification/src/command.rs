//! The commands of the interactive game: `info`, `guess` and `quit`.

use vstd::prelude::*;
use vstd::string::{StrSliceExecFns, StringExecFns};

use crate::data::{views, Sinner, SinnerView};
use crate::solve::{find_named, is_first_named, is_unknown};
use crate::text::{chars_of, find_char, first_index_of, is_text, trim, trim_bounds};

verus! {

/// What a line entered at the game prompt asks for.
#[derive(Debug)]
pub enum Command {
    /// Leave the game.
    Quit,
    /// Show the sinner at this position of the roster.
    Info(usize),
    /// Guess the sinner at this position of the roster.
    Guess(usize),
    /// The line is no command; the text is the word that was taken for one,
    /// or the whole line when it holds no space.
    UnknownCommand(String),
    /// The command names no sinner of the roster; the text is the name.
    UnknownSinner(String),
}

/// A command as a plain value.
pub enum CommandView {
    Quit,
    Info(int),
    Guess(int),
    UnknownCommand(Seq<char>),
    UnknownSinner(Seq<char>),
}

impl View for Command {
    type V = CommandView;

    open spec fn view(&self) -> CommandView {
        match self {
            Command::Quit => CommandView::Quit,
            Command::Info(at) => CommandView::Info(*at as int),
            Command::Guess(at) => CommandView::Guess(*at as int),
            Command::UnknownCommand(word) => CommandView::UnknownCommand(word@),
            Command::UnknownSinner(name) => CommandView::UnknownSinner(name@),
        }
    }
}

/// The position that a name stands for: that of the first sinner that goes
/// by it, or nothing when none does.
pub open spec fn named(roster: Seq<SinnerView>, name: Seq<char>) -> Option<int> {
    if is_unknown(roster, name) {
        None
    } else {
        Some(choose|at: int| is_first_named(roster, name, at))
    }
}

/// What a line asks for. The line is trimmed; `quit` quits; otherwise the
/// first space parts the command word from the name, which is taken as it
/// stands.
pub open spec fn command_of(line: Seq<char>, roster: Seq<SinnerView>) -> CommandView {
    let entry = trim(line);
    if entry == "quit"@ {
        CommandView::Quit
    } else {
        match first_index_of(entry, ' ') {
            None => CommandView::UnknownCommand(entry),
            Some(space) => {
                let word = entry.take(space);
                let name = entry.skip(space + 1);
                if word == "info"@ {
                    match named(roster, name) {
                        Some(at) => CommandView::Info(at),
                        None => CommandView::UnknownSinner(name),
                    }
                } else if word == "guess"@ {
                    match named(roster, name) {
                        Some(at) => CommandView::Guess(at),
                        None => CommandView::UnknownSinner(name),
                    }
                } else {
                    CommandView::UnknownCommand(word)
                }
            },
        }
    }
}

/// Reads a line entered at the game prompt.
pub fn parse_command(line: &str, choices: &[Sinner]) -> (command: Command)
    ensures
        command@ == command_of(line@, views(choices@)),
        match command {
            Command::Info(at) => at < choices.len(),
            Command::Guess(at) => at < choices.len(),
            _ => true,
        },
{
    let chars = chars_of(line);
    proof {
        assert(chars@.subrange(0, chars.len() as int) =~= chars@);
    }
    let (from, to) = trim_bounds(&chars, 0, chars.len());
    let ghost entry = chars@.subrange(from as int, to as int);
    if is_text(&chars, from, to, "quit") {
        return Command::Quit;
    }
    let space = match find_char(&chars, from, to, ' ') {
        Some(space) => space,
        None => {
            return Command::UnknownCommand(line.substring_char(from, to).to_owned());
        },
    };
    proof {
        assert(entry.take(space - from) =~= chars@.subrange(from as int, space as int));
        assert(entry.skip(space - from + 1) =~= chars@.subrange(space + 1, to as int));
    }
    let info = is_text(&chars, from, space, "info");
    let guess = is_text(&chars, from, space, "guess");
    if !info && !guess {
        return Command::UnknownCommand(line.substring_char(from, space).to_owned());
    }
    proof {
        reveal_strlit("info");
        reveal_strlit("guess");
    }
    match find_named(choices, &chars, space + 1, to) {
        Some(at) => {
            proof {
                crate::solve::lemma_first_named_is_unique(
                    views(choices@),
                    chars@.subrange(space + 1, to as int),
                    at as int,
                );
            }
            if info {
                Command::Info(at)
            } else {
                Command::Guess(at)
            }
        },
        None => Command::UnknownSinner(line.substring_char(space + 1, to).to_owned()),
    }
}

/// The lines that the prompt offers to complete: `info` and the name, for
/// every sinner, then `guess` and the name, for every sinner, then `quit`.
pub fn completions(choices: &[Sinner]) -> (lines: Vec<String>)
    ensures
        lines.len() == 2 * choices.len() + 1,
        forall|i: int|
            0 <= i < choices.len() ==> (#[trigger] lines[i])@ == "info "@ + choices[i].name@,
        forall|i: int|
            0 <= i < choices.len() ==> (#[trigger] lines[choices.len() + i])@ == "guess "@
                + choices[i].name@,
        lines[2 * choices.len()]@ == "quit"@,
{
    let n = choices.len();
    let mut lines: Vec<String> = Vec::new();
    let mut i: usize = 0;
    while i < n
        invariant
            i <= n == choices.len(),
            lines.len() == i,
            forall|k: int| 0 <= k < i ==> (#[trigger] lines[k])@ == "info "@ + choices[k].name@,
        decreases n - i,
    {
        let mut line = "info ".to_owned();
        line.append(choices[i].name.as_str());
        lines.push(line);
        i += 1;
    }
    let mut j: usize = 0;
    while j < n
        invariant
            j <= n == choices.len(),
            lines.len() == n + j,
            forall|k: int| 0 <= k < n ==> (#[trigger] lines[k])@ == "info "@ + choices[k].name@,
            forall|k: int|
                0 <= k < j ==> (#[trigger] lines[n + k])@ == "guess "@ + choices[k].name@,
        decreases n - j,
    {
        let mut line = "guess ".to_owned();
        line.append(choices[j].name.as_str());
        lines.push(line);
        j += 1;
    }
    lines.push("quit".to_owned());
    lines
}

} // verus!
