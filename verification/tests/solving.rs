use ptndle::command::{completions, parse_command, Command};
use ptndle::compare::Comparison;
use ptndle::data::{Alignment, BirthPlace, Sinner, Tendency};
use ptndle::flags::{
    get_in_depth_help, HelpCommand, NameAndGuesses, GATHER_IN_DEPTH_HELP, HELP_IN_DEPTH_HELP,
    PLAY_IN_DEPTH_HELP, SOLVE_IN_DEPTH_HELP,
};
use ptndle::guess::Guess;
use ptndle::solve::{
    advise, find_by_name, read_entry, seed, Advice, NameAndGuess, NameAndGuessError, RowEntry,
    SolveError,
};

fn sinner(name: &str, code: Option<u16>, height: u8) -> Sinner {
    Sinner {
        name: name.to_owned(),
        code,
        alignment: Alignment::Limbo,
        tendency: Tendency::Fury,
        height,
        birthplace: BirthPlace::Syndicate,
    }
}

fn small() -> Vec<Sinner> {
    vec![sinner("A", Some(10), 168), sinner("B", Some(12), 168), sinner("L.L.", Some(500), 168)]
}

fn names(sinners: &[Sinner]) -> Vec<&str> {
    sinners.iter().map(|s| s.name.as_str()).collect()
}

#[test]
fn a_name_and_a_row_are_parted_at_the_first_colon() {
    let entry = NameAndGuess::parse("L.L.:^ 0 0 vv 0").unwrap();
    assert_eq!(entry.name, "L.L.");
    assert_eq!(entry.guess, Guess::new(Some(Comparison::Greater), false, false, Comparison::FarLess, false));
    let entry: NameAndGuess = "  Some Name \t: = 1 1 = 1 ".parse().unwrap();
    assert_eq!(entry.name, "Some Name");
    assert_eq!(entry.guess, Guess::new(Some(Comparison::Correct), true, true, Comparison::Correct, true));
    let entry = NameAndGuess::parse(":x 1 1 ~ 1").unwrap();
    assert_eq!(entry.name, "");
    assert_eq!(entry.guess.code(), None);
}

#[test]
fn a_text_without_colon_or_with_a_bad_row_is_rejected() {
    assert_eq!(NameAndGuess::parse("").unwrap_err(), NameAndGuessError::NoColon);
    assert_eq!(NameAndGuess::parse("A = 1 1 = 1").unwrap_err(), NameAndGuessError::NoColon);
    assert_eq!(NameAndGuess::parse("A:").unwrap_err(), NameAndGuessError::InvalidGuess);
    assert_eq!(NameAndGuess::parse("A:= 1 1 =").unwrap_err(), NameAndGuessError::InvalidGuess);
    assert_eq!(NameAndGuess::parse("A:B:= 1 1 = 1").unwrap_err(), NameAndGuessError::InvalidGuess);
    assert_eq!(NameAndGuessError::NoColon.message(), "No : in input");
    assert_eq!(NameAndGuessError::InvalidGuess.message(), "Invalid guess format.");
}

#[test]
fn a_list_is_parted_at_its_commas() {
    let list = NameAndGuesses::parse("L.L.:^ 0 0 vv 0,Angell:^^ 0 0 vv 0").unwrap();
    assert_eq!(list.0.len(), 2);
    assert_eq!(list.0[0].name, "L.L.");
    assert_eq!(list.0[0].guess.to_text(), "^ 0 0 vv 0");
    assert_eq!(list.0[1].name, "Angell");
    assert_eq!(list.0[1].guess.to_text(), "^^ 0 0 vv 0");
    let list: NameAndGuesses = " A : = 1 1 = 1 ,\tB:x 0 0 ~ 0\n".parse().unwrap();
    assert_eq!(list.0.len(), 2);
    assert_eq!(list.0[0].name, "A");
    assert_eq!(list.0[1].name, "B");
    assert_eq!(list.0[1].guess.to_text(), "x 0 0 ~ 0");
    let list = NameAndGuesses::parse("A:= 1 1 = 1").unwrap();
    assert_eq!(list.0.len(), 1);
}

#[test]
fn the_first_bad_part_of_a_list_is_its_error() {
    assert_eq!(NameAndGuesses::parse("").unwrap_err(), NameAndGuessError::NoColon);
    assert_eq!(NameAndGuesses::parse("A:= 1 1 = 1,").unwrap_err(), NameAndGuessError::NoColon);
    assert_eq!(
        NameAndGuesses::parse("A:= 1 1 = 1,B:nope,C").unwrap_err(),
        NameAndGuessError::InvalidGuess
    );
    assert_eq!(
        NameAndGuesses::parse("A,B:nope").unwrap_err(),
        NameAndGuessError::NoColon
    );
}

#[test]
fn a_sinner_is_found_by_name_without_regard_to_case() {
    let roster = small();
    assert_eq!(find_by_name(&roster, "A"), Some(0));
    assert_eq!(find_by_name(&roster, "b"), Some(1));
    assert_eq!(find_by_name(&roster, "l.l."), Some(2));
    assert_eq!(find_by_name(&roster, "L.L"), None);
    assert_eq!(find_by_name(&roster, " A"), None);
    assert_eq!(find_by_name(&roster, ""), None);
    assert_eq!(find_by_name(&[], "A"), None);
    let twice = vec![sinner("x", Some(1), 1), sinner("X", Some(2), 2)];
    assert_eq!(find_by_name(&twice, "X"), Some(0));
    let accented = vec![sinner("\u{e9}", Some(1), 1)];
    assert_eq!(find_by_name(&accented, "\u{c9}"), None);
    assert_eq!(find_by_name(&accented, "\u{e9}"), Some(0));
    let at = vec![sinner("@", Some(1), 1), sinner("[", Some(2), 1)];
    assert_eq!(find_by_name(&at, "`"), None);
    assert_eq!(find_by_name(&at, "{"), None);
}

#[test]
fn seeding_takes_in_the_played_guesses() {
    let roster = small();
    let played = NameAndGuesses::parse("a:^^ 1 1 = 1").unwrap();
    let player = seed(&played.0, roster.clone()).unwrap();
    assert_eq!(names(player.candidates()), ["L.L."]);
    match advise(&player) {
        Advice::Solved(s) => assert_eq!(s, &roster[2]),
        other => panic!("{other:?}"),
    }
    let player = seed(&[], roster.clone()).unwrap();
    assert_eq!(names(player.candidates()), ["A", "B", "L.L."]);
    match advise(&player) {
        Advice::Play(s) => assert_eq!(s, &roster[0]),
        other => panic!("{other:?}"),
    }
    let played = NameAndGuesses::parse("L.L.:vv 1 1 = 1, A:~ 1 1 = 1").unwrap();
    let player = seed(&played.0, roster.clone()).unwrap();
    assert_eq!(names(player.candidates()), ["B"]);
}

#[test]
fn seeding_with_the_all_correct_row_leaves_no_candidate() {
    let roster = small();
    let played = NameAndGuesses::parse("B:= 1 1 = 1").unwrap();
    let player = seed(&played.0, roster).unwrap();
    assert!(player.candidates().is_empty());
    assert!(matches!(advise(&player), Advice::Contradiction));
    assert_eq!(
        SolveError::Contradiction.message(),
        "No possible guesses in this state. There is likely a contradiction."
    );
}

#[test]
fn seeding_with_an_unknown_name_fails() {
    let played = NameAndGuesses::parse("A:^^ 1 1 = 1,Nobody:= 1 1 = 1,Noone:= 1 1 = 1").unwrap();
    match seed(&played.0, small()) {
        Err(SolveError::UnknownSinner(name)) => {
            assert_eq!(name, "Nobody");
            assert_eq!(
                SolveError::UnknownSinner(name).message(),
                "No sinner with name Nobody found"
            );
        },
        other => panic!("{other:?}"),
    }
}

#[test]
fn a_line_at_the_row_prompt_quits_or_is_a_row_or_is_asked_again() {
    assert_eq!(read_entry("q"), RowEntry::Quit);
    assert_eq!(read_entry("  q \n"), RowEntry::Quit);
    assert_eq!(
        read_entry("^^ 0 0 ~ 1\n"),
        RowEntry::Row(Guess::new(Some(Comparison::FarGreater), false, false, Comparison::Near, true))
    );
    assert_eq!(read_entry("Q"), RowEntry::Invalid);
    assert_eq!(read_entry("quit"), RowEntry::Invalid);
    assert_eq!(read_entry(""), RowEntry::Invalid);
    assert_eq!(read_entry("^^ 0 0 ~"), RowEntry::Invalid);
}

#[test]
fn the_game_prompt_knows_three_commands() {
    let roster = small();
    assert!(matches!(parse_command("quit", &roster), Command::Quit));
    assert!(matches!(parse_command("  quit\n", &roster), Command::Quit));
    assert!(matches!(parse_command("info a", &roster), Command::Info(0)));
    assert!(matches!(parse_command("guess L.L.\n", &roster), Command::Guess(2)));
    assert!(matches!(parse_command(" guess B ", &roster), Command::Guess(1)));
    match parse_command("guess  B", &roster) {
        Command::UnknownSinner(name) => assert_eq!(name, " B"),
        other => panic!("{other:?}"),
    }
    match parse_command("info Nobody Here", &roster) {
        Command::UnknownSinner(name) => assert_eq!(name, "Nobody Here"),
        other => panic!("{other:?}"),
    }
    match parse_command("look A", &roster) {
        Command::UnknownCommand(word) => assert_eq!(word, "look"),
        other => panic!("{other:?}"),
    }
    match parse_command("Guess A", &roster) {
        Command::UnknownCommand(word) => assert_eq!(word, "Guess"),
        other => panic!("{other:?}"),
    }
    match parse_command(" guess\n", &roster) {
        Command::UnknownCommand(word) => assert_eq!(word, "guess"),
        other => panic!("{other:?}"),
    }
    match parse_command("", &roster) {
        Command::UnknownCommand(word) => assert_eq!(word, ""),
        other => panic!("{other:?}"),
    }
    match parse_command("quit now", &roster) {
        Command::UnknownCommand(word) => assert_eq!(word, "quit"),
        other => panic!("{other:?}"),
    }
}

#[test]
fn the_prompt_completes_every_command() {
    assert_eq!(
        completions(&small()),
        ["info A", "info B", "info L.L.", "guess A", "guess B", "guess L.L.", "quit"]
    );
    assert_eq!(completions(&[]), ["quit"]);
}

#[test]
fn help_is_given_for_four_commands() {
    assert_eq!("gather".parse::<HelpCommand>().unwrap(), HelpCommand::Gather);
    assert_eq!(HelpCommand::parse("solve").unwrap(), HelpCommand::Solve);
    assert_eq!(HelpCommand::parse("play").unwrap(), HelpCommand::Play);
    assert_eq!(HelpCommand::parse("help").unwrap(), HelpCommand::Help);
    let error = HelpCommand::parse("Help").unwrap_err();
    assert_eq!(error.0, "Help");
    assert_eq!(error.message(), "Unknown command: `Help`");
    assert_eq!(HelpCommand::parse("").unwrap_err().message(), "Unknown command: ``");
    assert_eq!(HelpCommand::parse(" play").unwrap_err().0, " play");
    assert_eq!(get_in_depth_help(&HelpCommand::Gather), GATHER_IN_DEPTH_HELP);
    assert_eq!(get_in_depth_help(&HelpCommand::Solve), SOLVE_IN_DEPTH_HELP);
    assert_eq!(get_in_depth_help(&HelpCommand::Play), PLAY_IN_DEPTH_HELP);
    assert_eq!(get_in_depth_help(&HelpCommand::Help), HELP_IN_DEPTH_HELP);
    assert!(get_in_depth_help(&HelpCommand::Solve).contains("An example input for a guess is ^^ 0 0 ~ 1"));
    assert!(get_in_depth_help(&HelpCommand::Play).starts_with("USAGE: ptndle-cli play"));
}
