use ptndle::compare::Comparison;
use ptndle::data::{has_distinct_codes, Alignment, BirthPlace, Sinner, Tendency};
use ptndle::gather::gather_data;
use ptndle::guess::Guess;
use ptndle::play::{play_game, Game, OptimalPlayer, Player, CONTRADICTION};

fn sinner(name: &str, code: Option<u16>, height: u8) -> Sinner {
    Sinner {
        name: name.to_owned(),
        code,
        alignment: Alignment::Limbo,
        tendency: Tendency::Fury,
        height,
        birthplace: BirthPlace::Syndicate,
    }
}

// Codes 10 and 12 are near each other and far below 500. A guess of A or B
// leaves one candidate whatever the secret; a guess of C leaves two when the
// secret is A or B. So A and B cost 2, C costs 4.
fn small() -> Vec<Sinner> {
    vec![sinner("A", Some(10), 168), sinner("B", Some(12), 168), sinner("C", Some(500), 168)]
}

fn mixed() -> Vec<Sinner> {
    let mut roster = vec![
        sinner("Nox", None, 177),
        sinner("Ada", Some(7), 150),
        sinner("Bel", Some(21), 163),
        sinner("Cyr", Some(64), 168),
        sinner("Dee", Some(99), 171),
        sinner("Eli", Some(210), 185),
        sinner("Fay", Some(500), 160),
        sinner("Gus", Some(901), 199),
        sinner("Hal", Some(3000), 168),
        sinner("Ivy", Some(65535), 255),
    ];
    roster[2].alignment = Alignment::Death;
    roster[3].alignment = Alignment::Death;
    roster[4].tendency = Tendency::Umbra;
    roster[5].tendency = Tendency::Umbra;
    roster[6].birthplace = BirthPlace::Other;
    roster[7].birthplace = BirthPlace::Eastside;
    roster
}

fn names(player: &OptimalPlayer) -> Vec<String> {
    player.candidates().iter().map(|s| s.name.clone()).collect()
}

#[test]
fn the_first_candidate_of_least_cost_is_guessed() {
    assert_eq!(OptimalPlayer::new(small()).next_guess().unwrap().name, "A");
    let mut roster = small();
    roster.swap(0, 1);
    assert_eq!(OptimalPlayer::new(roster).next_guess().unwrap().name, "B");
    let mut roster = small();
    roster.swap(0, 2);
    assert_eq!(OptimalPlayer::new(roster).next_guess().unwrap().name, "B");
}

#[test]
fn a_single_candidate_is_guessed_and_none_is_a_contradiction() {
    let only = vec![sinner("C", Some(500), 168)];
    assert_eq!(OptimalPlayer::new(only.clone()).next_guess(), Some(&only[0]));
    assert_eq!(OptimalPlayer::new(Vec::new()).next_guess(), None);
}

#[test]
fn an_update_keeps_what_the_hint_allows_but_the_guess() {
    let roster = small();
    let mut player = OptimalPlayer::new(roster.clone());
    // C against a guess of A is far greater on the code
    player.update(roster[2].guess(&roster[0]), &roster[0]);
    assert_eq!(names(&player), ["C"]);
    let mut player = OptimalPlayer::new(roster.clone());
    // A against a guess of C is far less, and so is B
    player.update(roster[0].guess(&roster[2]), &roster[2]);
    assert_eq!(names(&player), ["A", "B"]);
    // a hint that nothing is consistent with leaves nothing
    player.update(Guess::new(None, true, true, Comparison::Correct, true), &roster[2]);
    assert!(names(&player).is_empty());
}

#[test]
fn an_update_drops_every_candidate_with_the_code_of_the_guess() {
    let roster = small();
    let mut player = OptimalPlayer::new(roster.clone());
    let all_correct = Guess::new(Some(Comparison::Correct), true, true, Comparison::Correct, true);
    player.update(all_correct, &roster[0]);
    assert!(names(&player).is_empty());
    let twins = vec![sinner("A", Some(10), 168), sinner("A2", Some(10), 168)];
    let mut player = OptimalPlayer::new(twins.clone());
    player.update(all_correct, &twins[0]);
    assert!(names(&player).is_empty());
}

#[test]
fn updates_never_add_a_candidate() {
    let roster = mixed();
    for target in &roster {
        let mut player = OptimalPlayer::new(roster.clone());
        let mut before = names(&player);
        for guess in &roster {
            if guess == target {
                continue;
            }
            player.update(target.guess(guess), guess);
            let after = names(&player);
            assert!(after.len() <= before.len());
            assert!(after.iter().all(|n| before.contains(n)));
            assert!(after.contains(&target.name));
            assert!(!after.contains(&guess.name));
            let kept: Vec<String> = before.iter().filter(|n| after.contains(n)).cloned().collect();
            assert_eq!(kept, after);
            before = after;
        }
        assert_eq!(before, [target.name.clone()]);
    }
}

#[test]
fn a_game_counts_its_guesses() {
    let roster = small();
    let mut game = Game::new(&roster[2]);
    assert_eq!(game.guess_num(), 1);
    let hint = game.guess(&roster[0]).unwrap();
    assert_eq!(hint, roster[2].guess(&roster[0]));
    assert_eq!(hint.code(), Some(Comparison::FarGreater));
    assert_eq!(game.guess_num(), 2);
    assert_eq!(game.guess(&roster[1]).map(|h| h.code()), Some(Some(Comparison::FarGreater)));
    assert_eq!(game.guess_num(), 3);
    assert_eq!(game.guess(&roster[2]), None);
    assert_eq!(game.guess_num(), 3);
}

#[test]
fn the_small_roster_is_solved_in_two_guesses() {
    let roster = small();
    let record = play_game(&roster[0], OptimalPlayer::new(roster.clone()));
    assert_eq!(record.guess_count, 1);
    assert_eq!(record.rounds.len(), 1);
    assert_eq!(record.rounds[0].guessed, roster[0]);
    assert_eq!(record.rounds[0].hint, None);
    for at in [1, 2] {
        let record = play_game(&roster[at], OptimalPlayer::new(roster.clone()));
        assert_eq!(record.guess_count, 2);
        assert_eq!(record.rounds.len(), 2);
        assert_eq!(record.rounds[0].guessed, roster[0]);
        assert_eq!(record.rounds[0].hint, Some(roster[at].guess(&roster[0])));
        assert_eq!(record.rounds[1].guessed, roster[at]);
        assert_eq!(record.rounds[1].hint, None);
    }
}

#[test]
fn a_secret_outside_the_candidates_ends_in_contradiction() {
    let roster = small();
    let player = OptimalPlayer::new(vec![roster[0].clone(), roster[1].clone()]);
    let record = play_game(&roster[2], player);
    assert_eq!(record.guess_count, 255);
    assert_eq!(record.guess_count, CONTRADICTION);
    assert_eq!(record.rounds.len(), 1);
    assert_eq!(record.rounds[0].guessed, roster[0]);
    assert_eq!(record.rounds[0].hint, Some(roster[2].guess(&roster[0])));
    let record = play_game(&roster[2], OptimalPlayer::new(Vec::new()));
    assert_eq!(record.guess_count, 255);
    assert!(record.rounds.is_empty());
}

#[test]
fn every_game_of_a_roster_ends_with_its_secret() {
    let roster = mixed();
    assert!(has_distinct_codes(&roster));
    for target in &roster {
        let record = play_game(target, OptimalPlayer::new(roster.clone()));
        assert!(record.guess_count >= 1);
        assert!(usize::from(record.guess_count) <= roster.len());
        assert_eq!(usize::from(record.guess_count), record.rounds.len());
        let last = record.rounds.last().unwrap();
        assert_eq!(&last.guessed, target);
        assert_eq!(last.hint, None);
        for round in &record.rounds[..record.rounds.len() - 1] {
            assert!(&round.guessed != target);
            assert_eq!(round.hint, Some(target.guess(&round.guessed)));
            assert!(round.guessed.matches_result(round.hint.unwrap(), target));
        }
    }
}

#[test]
fn distinct_codes_are_checked() {
    assert!(has_distinct_codes(&[]));
    assert!(has_distinct_codes(&small()));
    assert!(has_distinct_codes(&mixed()));
    let mut roster = small();
    roster.push(sinner("D", Some(12), 190));
    assert!(!has_distinct_codes(&roster));
    let two = [sinner("Nox", None, 170), sinner("Nix", None, 171)];
    assert!(!has_distinct_codes(&two));
    assert!(has_distinct_codes(&two[..1]));
}

#[test]
fn the_games_of_the_small_roster_are_summed_up() {
    let roster = small();
    let stats = gather_data(&roster);
    assert_eq!(stats.first_guess, roster[0]);
    assert_eq!(stats.games.len(), 3);
    let counts: Vec<u8> = stats.games.iter().map(|g| g.guess_count).collect();
    assert_eq!(counts, [1, 2, 2]);
    assert_eq!(stats.max_rounds, 2);
    assert_eq!(stats.distribution, [1, 2]);
    assert_eq!(stats.slowest, [1, 2]);
    assert_eq!(stats.total_guesses, 5);
    assert_eq!(stats.games[2].rounds.len(), 2);
    assert_eq!(stats.games[2].rounds[1].guessed, roster[2]);
}

#[test]
fn the_figures_agree_with_the_games() {
    let roster = mixed();
    let stats = gather_data(&roster);
    let counts: Vec<u8> = stats.games.iter().map(|g| g.guess_count).collect();
    assert_eq!(counts.len(), roster.len());
    assert_eq!(stats.max_rounds, *counts.iter().max().unwrap());
    assert_eq!(stats.distribution.len(), usize::from(stats.max_rounds));
    for (at, many) in stats.distribution.iter().enumerate() {
        assert_eq!(*many, counts.iter().filter(|c| usize::from(**c) == at + 1).count());
    }
    assert_eq!(stats.distribution.iter().sum::<usize>(), roster.len());
    let slowest: Vec<usize> =
        (0..counts.len()).filter(|i| counts[*i] == stats.max_rounds).collect();
    assert_eq!(stats.slowest, slowest);
    assert_eq!(stats.total_guesses, counts.iter().map(|c| u32::from(*c)).sum::<u32>());
    assert_eq!(
        Some(&stats.first_guess),
        OptimalPlayer::new(roster.clone()).next_guess()
    );
    for (at, game) in stats.games.iter().enumerate() {
        assert_eq!(game.rounds[0].guessed, stats.first_guess);
        assert_eq!(game.rounds.last().unwrap().guessed, roster[at]);
    }
}

#[test]
fn a_guess_costs_the_survivors_it_leaves_summed_over_the_secrets() {
    let player = OptimalPlayer::new(small());
    assert_eq!(player.cost_at(0), Some(2));
    assert_eq!(player.cost_at(1), Some(2));
    assert_eq!(player.cost_at(2), Some(4));
    assert_eq!(player.cost_at(3), None);
    assert_eq!(OptimalPlayer::new(Vec::new()).cost_at(0), None);
    // a candidate that occurs twice is left out as a secret both times
    let twins = vec![sinner("A", Some(10), 168), sinner("A", Some(10), 168)];
    assert_eq!(OptimalPlayer::new(twins).cost_at(0), Some(0));
    // a guess without a code gets no code comparison, which rules out nobody:
    // all three candidates survive for either secret
    let plain = vec![sinner("N", None, 168), sinner("A", Some(10), 168), sinner("B", Some(12), 168)];
    assert_eq!(OptimalPlayer::new(plain).cost_at(0), Some(6));
}
