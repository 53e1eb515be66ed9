//! What the command line hands over: the list of played guesses and the
//! command that help is asked for.

use vstd::prelude::*;
use vstd::string::StringExecFns;

use crate::guess::HintRow;
use crate::solve::{parse_name_and_row, read_name_and_guess, NameAndGuess, NameAndGuessError};
use crate::text::{
    chars_of, find_char, first_index_of, lemma_first_index_of, trim, trim_bounds,
};

verus! {

/// The played guesses that seed the solver.
#[derive(Debug)]
pub struct NameAndGuesses(pub Vec<NameAndGuess>);

impl View for NameAndGuesses {
    type V = Seq<(Seq<char>, HintRow)>;

    open spec fn view(&self) -> Seq<(Seq<char>, HintRow)> {
        self.0@.map_values(|e: NameAndGuess| e@)
    }
}

/// What a list of `name:row`, separated by commas, stands for. Every part is
/// trimmed and read on its own; the first part that cannot be read makes the
/// whole list an error.
pub open spec fn parse_list(text: Seq<char>) -> Result<
    Seq<(Seq<char>, HintRow)>,
    NameAndGuessError,
>
    decreases text.len(),
    via parse_list_decreases
{
    match first_index_of(text, ',') {
        None => match parse_name_and_row(trim(text)) {
            Ok(entry) => Ok(seq![entry]),
            Err(e) => Err(e),
        },
        Some(comma) => match parse_name_and_row(trim(text.take(comma))) {
            Ok(entry) => match parse_list(text.skip(comma + 1)) {
                Ok(rest) => Ok(seq![entry] + rest),
                Err(e) => Err(e),
            },
            Err(e) => Err(e),
        },
    }
}

#[via_fn]
proof fn parse_list_decreases(text: Seq<char>) {
    lemma_first_index_of(text, ',');
}

impl NameAndGuesses {
    /// Reads a list of `name:row`, separated by commas.
    pub fn parse(text: &str) -> (list: Result<NameAndGuesses, NameAndGuessError>)
        ensures
            parse_list(text@) == match list {
                Ok(l) => Ok(l@),
                Err(e) => Err(e),
            },
    {
        let chars = chars_of(text);
        let len = chars.len();
        let ghost all = chars@;
        let mut entries: Vec<NameAndGuess> = Vec::new();
        let mut from: usize = 0;
        proof {
            assert(all.subrange(0, len as int) =~= all);
        }
        loop
            invariant
                from <= len == chars.len(),
                all == chars@,
                all == text@,
                parse_list(all) == match parse_list(all.subrange(from as int, len as int)) {
                    Ok(rest) => Ok(entries@.map_values(|e: NameAndGuess| e@) + rest),
                    Err(e) => Err(e),
                },
            decreases len - from,
        {
            let ghost rest = all.subrange(from as int, len as int);
            let ghost done = entries@.map_values(|e: NameAndGuess| e@);
            let comma = find_char(&chars, from, len, ',');
            let to = match comma {
                Some(comma) => comma,
                None => len,
            };
            proof {
                assert(rest.take(to - from) =~= all.subrange(from as int, to as int));
                if comma is None {
                    assert(rest =~= all.subrange(from as int, to as int));
                } else {
                    assert(rest.skip(to - from + 1) =~= all.subrange(to + 1, len as int));
                }
            }
            let (a, b) = trim_bounds(&chars, from, to);
            let entry = match read_name_and_guess(text, &chars, a, b) {
                Ok(entry) => entry,
                Err(e) => {
                    return Err(e);
                },
            };
            proof {
                assert(entries@.push(entry).map_values(|e: NameAndGuess| e@) =~= done.push(
                    entry@,
                ));
            }
            entries.push(entry);
            if comma.is_none() {
                proof {
                    assert(done + seq![entry@] =~= done.push(entry@));
                }
                return Ok(NameAndGuesses(entries));
            }
            proof {
                let after = all.subrange(to + 1, len as int);
                match parse_list(after) {
                    Ok(more) => {
                        assert(done + (seq![entry@] + more) =~= done.push(entry@) + more);
                    },
                    Err(_) => {},
                }
            }
            from = to + 1;
        }
    }
}

impl std::str::FromStr for NameAndGuesses {
    type Err = NameAndGuessError;

    fn from_str(text: &str) -> (list: Result<Self, NameAndGuessError>)
        ensures
            parse_list(text@) == match list {
                Ok(l) => Ok(l@),
                Err(e) => Err(e),
            },
    {
        NameAndGuesses::parse(text)
    }
}

/// A command that in-depth help can be asked for.
#[derive(Copy, Clone, Debug, PartialEq, Eq, Structural)]
pub enum HelpCommand {
    Gather,
    Solve,
    Play,
    Help,
}

/// The text that was given where a command was expected.
#[derive(Debug)]
pub struct UnknownCommandError(pub String);

impl UnknownCommandError {
    /// The message for this error: the text between backticks.
    pub fn message(&self) -> (text: String)
        ensures
            text@ == "Unknown command: `"@ + self.0@ + "`"@,
    {
        let mut text = "Unknown command: `".to_owned();
        text.append(self.0.as_str());
        text.append("`");
        text
    }
}

/// The command that a word names, if it names one.
pub open spec fn help_command_of(word: Seq<char>) -> Option<HelpCommand> {
    if word == "gather"@ {
        Some(HelpCommand::Gather)
    } else if word == "solve"@ {
        Some(HelpCommand::Solve)
    } else if word == "play"@ {
        Some(HelpCommand::Play)
    } else if word == "help"@ {
        Some(HelpCommand::Help)
    } else {
        None
    }
}

impl HelpCommand {
    /// Reads the name of a command. Any other word is an error that carries
    /// the word.
    pub fn parse(word: &str) -> (command: Result<HelpCommand, UnknownCommandError>)
        ensures
            match command {
                Ok(c) => help_command_of(word@) == Some(c),
                Err(e) => help_command_of(word@) is None && e.0@ == word@,
            },
    {
        let chars = chars_of(word);
        let len = chars.len();
        proof {
            assert(chars@.subrange(0, len as int) =~= chars@);
            reveal_strlit("gather");
            reveal_strlit("solve");
            reveal_strlit("play");
            reveal_strlit("help");
        }
        if crate::text::is_text(&chars, 0, len, "gather") {
            Ok(HelpCommand::Gather)
        } else if crate::text::is_text(&chars, 0, len, "solve") {
            Ok(HelpCommand::Solve)
        } else if crate::text::is_text(&chars, 0, len, "play") {
            Ok(HelpCommand::Play)
        } else if crate::text::is_text(&chars, 0, len, "help") {
            Ok(HelpCommand::Help)
        } else {
            Err(UnknownCommandError(word.to_owned()))
        }
    }
}

impl std::str::FromStr for HelpCommand {
    type Err = UnknownCommandError;

    fn from_str(word: &str) -> (command: Result<Self, UnknownCommandError>)
        ensures
            match command {
                Ok(c) => help_command_of(word@) == Some(c),
                Err(e) => help_command_of(word@) is None && e.0@ == word@,
            },
    {
        HelpCommand::parse(word)
    }
}

/// In-depth help for `help`.
pub const HELP_IN_DEPTH_HELP: &'static str = "USAGE: ptndle-cli help [command]

View in-depth help for a command";

/// In-depth help for `gather`.
pub const GATHER_IN_DEPTH_HELP: &'static str = "USAGE: ptndle-cli gather

Play every possible game of Path To Nowordle and gather statistical data about
the solver's performance. 

The results of playing each game are sent to stdout along with a summary of the gathered data
containing the following information:
    - The first sinner the solver chooses to play
    - The maximum number of guesses it takes to guess any sinner
    - The distribution of the number of guesses it takes to guess sinners
    - The sinners that take the maximum number of guesses to guess
    - The mean number of guesses it takes to guess a sinner";

/// In-depth help for `play`.
pub const PLAY_IN_DEPTH_HELP: &'static str = "USAGE: ptndle-cli play

Play a game of Path to Nowordle from the terminal

You will be put into an interactive shell with the following commands:

info [sinner]:  View info on a sinner
guess [sinner]: Guess a sinner
quit:           Quit";

/// In-depth help for `solve`.
pub const SOLVE_IN_DEPTH_HELP: &'static str = "
USAGE: ptndle-cli solve [guesses]

Solve a game of Path to Nowordle from an optional set of starting guesses.

Guesses are made up of 5 whitespace-separated components, Code (comparison),
Alignment (boolean), Tendency (boolean), Height (comparison), and Birthplace (boolean).
Booleans are entered as 0 or 1 and comparisons are entered as follows:

    N/A:         x
    Correct:     =
    Far Less:    vv
    Less:        v
    Near:        ~
    Greater:     ^
    Far Greater: ^^

An example input for a guess is ^^ 0 0 ~ 1 and an example input for the guesses argument
is \"L.L.:^ 0 0 vv 0,Angell:^^ 0 0 vv 0\"";

/// The in-depth help for a command.
pub fn get_in_depth_help(cmd: &HelpCommand) -> (text: &'static str)
    ensures
        text == match cmd {
            HelpCommand::Gather => GATHER_IN_DEPTH_HELP,
            HelpCommand::Solve => SOLVE_IN_DEPTH_HELP,
            HelpCommand::Play => PLAY_IN_DEPTH_HELP,
            HelpCommand::Help => HELP_IN_DEPTH_HELP,
        },
{
    match cmd {
        HelpCommand::Gather => GATHER_IN_DEPTH_HELP,
        HelpCommand::Solve => SOLVE_IN_DEPTH_HELP,
        HelpCommand::Play => PLAY_IN_DEPTH_HELP,
        HelpCommand::Help => HELP_IN_DEPTH_HELP,
    }
}

} // verus!
