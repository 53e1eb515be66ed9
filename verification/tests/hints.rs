use ptndle::compare::{Comparison, Threshold, Thresholds};
use ptndle::data::{Alignment, BirthPlace, Sinner, Tendency};
use ptndle::deduce::{
    code_matches, height_above_lower_far_threshold, height_above_lower_near_threshold,
    height_below_upper_far_threshold, height_below_upper_near_threshold, height_matches,
};
use ptndle::guess::{Guess, HintRow};

fn sinner(name: &str, code: Option<u16>, height: u8) -> Sinner {
    Sinner {
        name: name.to_owned(),
        code,
        alignment: Alignment::Limbo,
        tendency: Tendency::Fury,
        height,
        birthplace: BirthPlace::Syndicate,
    }
}

const ALL: [Comparison; 6] = [
    Comparison::Correct,
    Comparison::FarLess,
    Comparison::Less,
    Comparison::Near,
    Comparison::Greater,
    Comparison::FarGreater,
];

#[test]
fn a_sinner_without_code_guessed_against_itself_is_all_correct() {
    let nox = sinner("NOX", None, 170);
    let hint = nox.guess(&nox);
    assert_eq!(hint.code(), Some(Comparison::Correct));
    assert!(hint.alignment());
    assert!(hint.tendency());
    assert_eq!(hint.height(), Comparison::Correct);
    assert!(hint.birthplace());
}

#[test]
fn equal_code_and_height_are_correct() {
    let target = sinner("A", Some(100), 172);
    let mut guess = sinner("B", Some(100), 172);
    guess.alignment = Alignment::Death;
    guess.tendency = Tendency::Umbra;
    guess.birthplace = BirthPlace::Other;
    let hint = target.guess(&guess);
    assert_eq!(hint.code(), Some(Comparison::Correct));
    assert_eq!(hint.height(), Comparison::Correct);
    assert!(!hint.alignment());
    assert!(!hint.tendency());
    assert!(!hint.birthplace());
}

#[test]
fn a_much_lower_target_is_far_less_on_code_and_height() {
    let target = sinner("A", Some(10), 160);
    let guess = sinner("B", Some(200), 180);
    let hint = target.guess(&guess);
    assert_eq!(hint.code(), Some(Comparison::FarLess));
    assert_eq!(hint.height(), Comparison::FarLess);
}

#[test]
fn a_code_against_no_code_gives_no_code_comparison() {
    let with = sinner("A", Some(10), 160);
    let without = sinner("NOX", None, 160);
    assert_eq!(with.guess(&without).code(), None);
    assert_eq!(without.guess(&with).code(), None);
}

#[test]
fn thresholds_are_held_in_twentieths() {
    let s = sinner("A", Some(100), 178);
    let t = s.thresholds();
    // near 5 + 0.1 * 100 = 15, far 50 + 0.35 * 100 = 85
    assert_eq!(t.code, Some(Threshold { near: 300, far: 1700 }));
    // d = 10: near 3 + 1 = 4, far 15 + 3.5 = 18.5
    assert_eq!(t.height, Threshold { near: 80, far: 370 });
    let low = sinner("B", None, 158);
    assert_eq!(
        low.thresholds(),
        Thresholds { code: None, height: Threshold { near: 80, far: 370 } }
    );
    let zero = sinner("C", Some(0), 168);
    assert_eq!(zero.thresholds().code, Some(Threshold { near: 100, far: 1000 }));
    assert_eq!(zero.thresholds().height, Threshold { near: 60, far: 300 });
    let top = sinner("D", Some(65535), 255);
    assert_eq!(top.thresholds().code, Some(Threshold { near: 131170, far: 459745 }));
    assert_eq!(top.thresholds().height, Threshold { near: 234, far: 909 });
}

#[test]
fn compare_follows_the_bands() {
    // near 6, far 53.5
    let t = Threshold { near: 120, far: 1070 };
    assert_eq!(t.compare(20, 20), Comparison::Correct);
    assert_eq!(t.compare(21, 20), Comparison::Near);
    assert_eq!(t.compare(19, 20), Comparison::Near);
    assert_eq!(t.compare(27, 20), Comparison::Greater);
    assert_eq!(t.compare(13, 20), Comparison::Less);
    assert_eq!(t.compare(74, 20), Comparison::FarGreater);
    assert_eq!(t.compare(0, 54), Comparison::FarLess);
}

#[test]
fn a_distance_on_a_band_edge_falls_into_the_looser_bucket() {
    // near 6, far 54
    let t = Threshold { near: 120, far: 1080 };
    assert_eq!(t.compare(26, 20), Comparison::Near);
    assert_eq!(t.compare(14, 20), Comparison::Near);
    assert_eq!(t.compare(74, 20), Comparison::Greater);
    assert_eq!(t.compare(75, 20), Comparison::FarGreater);
    assert_eq!(t.compare(0, 54), Comparison::Less);
    assert_eq!(t.compare(0, 55), Comparison::FarLess);
}

#[test]
fn a_code_tie_on_the_near_edge_is_near() {
    // target 10: near 5 + 1 = 6; guess 16 is exactly 6 above
    let target = sinner("A", Some(10), 168);
    let guess = sinner("B", Some(16), 168);
    assert_eq!(target.guess(&guess).code(), Some(Comparison::Near));
    let guess = sinner("B", Some(17), 168);
    assert_eq!(target.guess(&guess).code(), Some(Comparison::Less));
    // target 20: far 50 + 7 = 57
    let target = sinner("A", Some(20), 168);
    assert_eq!(target.guess(&sinner("B", Some(77), 168)).code(), Some(Comparison::Less));
    assert_eq!(target.guess(&sinner("B", Some(78), 168)).code(), Some(Comparison::FarLess));
}

#[test]
fn height_bands_widen_away_from_the_most_common_height() {
    // target 168: near 3, far 15
    let target = sinner("A", Some(1), 168);
    assert_eq!(target.guess(&sinner("B", Some(2), 165)).height(), Comparison::Near);
    assert_eq!(target.guess(&sinner("B", Some(2), 164)).height(), Comparison::Greater);
    assert_eq!(target.guess(&sinner("B", Some(2), 153)).height(), Comparison::Greater);
    assert_eq!(target.guess(&sinner("B", Some(2), 152)).height(), Comparison::FarGreater);
    assert_eq!(target.guess(&sinner("B", Some(2), 171)).height(), Comparison::Near);
    assert_eq!(target.guess(&sinner("B", Some(2), 172)).height(), Comparison::Less);
    assert_eq!(target.guess(&sinner("B", Some(2), 183)).height(), Comparison::Less);
    assert_eq!(target.guess(&sinner("B", Some(2), 184)).height(), Comparison::FarLess);
    // target 188: d = 20, near 5, far 22
    let target = sinner("A", Some(1), 188);
    assert_eq!(target.guess(&sinner("B", Some(2), 183)).height(), Comparison::Near);
    assert_eq!(target.guess(&sinner("B", Some(2), 182)).height(), Comparison::Greater);
    assert_eq!(target.guess(&sinner("B", Some(2), 166)).height(), Comparison::Greater);
    assert_eq!(target.guess(&sinner("B", Some(2), 165)).height(), Comparison::FarGreater);
}

#[test]
fn every_field_tuple_is_read_back_from_the_packed_hint() {
    let mut codes: Vec<Option<Comparison>> = vec![None];
    for c in ALL {
        codes.push(Some(c));
    }
    let mut seen: Vec<Guess> = Vec::new();
    for code in codes {
        for height in ALL {
            for bits in 0..8u8 {
                let alignment = bits & 1 != 0;
                let tendency = bits & 2 != 0;
                let birthplace = bits & 4 != 0;
                let g = Guess::new(code, alignment, tendency, height, birthplace);
                assert_eq!(g.code(), code);
                assert_eq!(g.alignment(), alignment);
                assert_eq!(g.tendency(), tendency);
                assert_eq!(g.height(), height);
                assert_eq!(g.birthplace(), birthplace);
                assert_eq!(g.row(), HintRow { code, alignment, tendency, height, birthplace });
                assert_eq!(g, Guess::new(code, alignment, tendency, height, birthplace));
                assert!(!seen.contains(&g));
                seen.push(g);
            }
        }
    }
    assert_eq!(seen.len(), 7 * 6 * 8);
}

#[test]
fn the_glyphs_are_two_columns_wide() {
    assert_eq!(Comparison::Correct.to_str(), " =");
    assert_eq!(Comparison::FarLess.to_str(), "\u{2193}\u{2193}");
    assert_eq!(Comparison::Less.to_str(), " \u{2193}");
    assert_eq!(Comparison::Near.to_str(), " \u{2245}");
    assert_eq!(Comparison::Greater.to_str(), " \u{2191}");
    assert_eq!(Comparison::FarGreater.to_str(), "\u{2191}\u{2191}");
}

#[test]
fn the_code_inverse_follows_its_bounds() {
    // guess 200: (g - 50) / 1.35 = 111.1, (g - 5) / 1.1 = 177.3,
    // (g + 5) / 0.9 = 227.8, (g + 5) * 0.9 = 184.5, (g + 50) / 0.65 = 384.6
    assert!(code_matches(200, 200, Comparison::Correct));
    assert!(!code_matches(200, 201, Comparison::Correct));
    assert!(code_matches(200, 111, Comparison::FarLess));
    assert!(!code_matches(200, 112, Comparison::FarLess));
    assert!(!code_matches(200, 111, Comparison::Less));
    assert!(code_matches(200, 112, Comparison::Less));
    assert!(code_matches(200, 177, Comparison::Less));
    assert!(!code_matches(200, 178, Comparison::Less));
    assert!(!code_matches(200, 177, Comparison::Near));
    assert!(code_matches(200, 178, Comparison::Near));
    assert!(!code_matches(200, 200, Comparison::Near));
    assert!(code_matches(200, 227, Comparison::Near));
    assert!(!code_matches(200, 228, Comparison::Near));
    assert!(!code_matches(200, 184, Comparison::Greater));
    assert!(code_matches(200, 185, Comparison::Greater));
    assert!(code_matches(200, 384, Comparison::Greater));
    assert!(!code_matches(200, 385, Comparison::Greater));
    assert!(!code_matches(200, 384, Comparison::FarGreater));
    assert!(code_matches(200, 385, Comparison::FarGreater));
}

#[test]
fn the_code_inverse_accepts_a_tie_as_less_and_as_near() {
    // 11 * 10 == 10 * (16 - 5)
    assert!(code_matches(16, 10, Comparison::Less));
    assert!(code_matches(16, 10, Comparison::Near));
    // 27 * 20 == 20 * (77 - 50)
    assert!(code_matches(77, 20, Comparison::Less));
    assert!(!code_matches(77, 20, Comparison::FarLess));
}

#[test]
fn the_code_inverse_accepts_every_forward_comparison() {
    let codes: [u16; 14] = [0, 1, 5, 10, 16, 45, 46, 77, 100, 200, 385, 1000, 30000, 65535];
    for t in codes {
        for g in codes {
            let target = sinner("T", Some(t), 168);
            let guess = sinner("G", Some(g), 168);
            let c = target.guess(&guess).code().unwrap();
            assert!(code_matches(g, t, c));
        }
    }
}

#[test]
fn the_height_inverse_is_the_forward_comparison() {
    for t in 0..=255u8 {
        for g in 0..=255u8 {
            let target = sinner("T", Some(1), t);
            let guess = sinner("G", Some(2), g);
            let forward = target.guess(&guess).height();
            for c in ALL {
                assert_eq!(height_matches(g, t, c), c == forward);
            }
        }
    }
}

#[test]
fn the_height_helpers_are_piecewise_in_the_guess() {
    // guess 160 <= 165: bound (1600 + 198) / 11 = 163
    assert!(height_below_upper_near_threshold(160, 163));
    assert!(!height_below_upper_near_threshold(160, 164));
    // guess 180 > 165: bound (1800 - 138) / 9 = 184
    assert!(height_below_upper_near_threshold(180, 184));
    assert!(!height_below_upper_near_threshold(180, 185));
    // guess 160 <= 171: bound ceil((1600 - 198) / 9) = 156
    assert!(height_above_lower_near_threshold(160, 156));
    assert!(!height_above_lower_near_threshold(160, 155));
    // guess 180 > 171: bound ceil((1800 + 138) / 11) = 177
    assert!(height_above_lower_near_threshold(180, 177));
    assert!(!height_above_lower_near_threshold(180, 176));
    // guess 150 <= 153: bound (3000 + 1176 + 300) / 27 = 165
    assert!(height_below_upper_far_threshold(150, 165));
    assert!(!height_below_upper_far_threshold(150, 166));
    // guess 180 > 153: bound (3600 - 1176 + 300) / 13 = 209
    assert!(height_below_upper_far_threshold(180, 209));
    assert!(!height_below_upper_far_threshold(180, 210));
    // guess 180 <= 183: bound ceil((3600 - 1176 - 300) / 13) = 164
    assert!(height_above_lower_far_threshold(180, 164));
    assert!(!height_above_lower_far_threshold(180, 163));
    // guess 200 > 183: bound ceil((4000 + 1176 - 300) / 27) = 181
    assert!(height_above_lower_far_threshold(200, 181));
    assert!(!height_above_lower_far_threshold(200, 180));
    // a small guess has no lower bound
    assert!(height_above_lower_near_threshold(10, 0));
    assert!(height_above_lower_far_threshold(70, 0));
}

#[test]
fn a_hint_keeps_the_secret_that_answered_it() {
    let heights: [u8; 7] = [1, 150, 165, 168, 171, 190, 255];
    let codes: [Option<u16>; 6] = [None, Some(0), Some(16), Some(100), Some(385), Some(65535)];
    for th in heights {
        for gh in heights {
            for tc in codes {
                for gc in codes {
                    if tc.is_none() && gc.is_none() {
                        continue;
                    }
                    let target = sinner("T", tc, th);
                    let mut guess = sinner("G", gc, gh);
                    guess.alignment = Alignment::Love;
                    let hint = target.guess(&guess);
                    assert!(guess.matches_result(hint, &target));
                }
            }
        }
    }
}

#[test]
fn two_sinners_without_code_do_not_match_their_own_hint() {
    let a = sinner("A", None, 170);
    let b = sinner("B", None, 180);
    let hint = a.guess(&b);
    assert_eq!(hint.code(), Some(Comparison::Correct));
    assert!(!b.matches_result(hint, &a));
}

#[test]
fn matches_result_checks_every_field() {
    let guess = sinner("G", Some(100), 170);
    let target = sinner("T", Some(120), 175);
    let hint = target.guess(&guess);
    assert!(guess.matches_result(hint, &target));
    let mut other = sinner("O", Some(120), 175);
    other.alignment = Alignment::Death;
    assert!(!guess.matches_result(hint, &other));
    let mut other = sinner("O", Some(120), 175);
    other.tendency = Tendency::Arcane;
    assert!(!guess.matches_result(hint, &other));
    let mut other = sinner("O", Some(120), 175);
    other.birthplace = BirthPlace::Eastside;
    assert!(!guess.matches_result(hint, &other));
    assert!(!guess.matches_result(hint, &sinner("O", Some(500), 175)));
    assert!(!guess.matches_result(hint, &sinner("O", Some(120), 230)));
    assert!(!guess.matches_result(hint, &sinner("O", None, 175)));
    let absent = Guess::new(None, true, true, hint.height(), true);
    assert!(guess.matches_result(absent, &sinner("O", None, 175)));
    assert!(!guess.matches_result(absent, &target));
    let nox = sinner("NOX", None, 170);
    assert!(nox.matches_result(Guess::new(None, true, true, Comparison::Correct, true), &nox));
}

#[test]
fn sinners_are_equal_when_all_fields_are() {
    let a = sinner("A", Some(1), 170);
    assert!(a == a.clone());
    assert!(a != sinner("B", Some(1), 170));
    assert!(a != sinner("A", Some(2), 170));
    assert!(a != sinner("A", None, 170));
    assert!(a != sinner("A", Some(1), 171));
    let mut b = a.clone();
    b.alignment = Alignment::Death;
    assert!(a != b);
    let mut b = a.clone();
    b.tendency = Tendency::Umbra;
    assert!(a != b);
    let mut b = a.clone();
    b.birthplace = BirthPlace::Other;
    assert!(a != b);
}

#[test]
fn every_sinner_guessed_against_itself_is_all_correct() {
    let all_correct = Guess::new(Some(Comparison::Correct), true, true, Comparison::Correct, true);
    for code in [None, Some(0), Some(45), Some(46), Some(65535)] {
        for height in [0, 1, 153, 168, 183, 255] {
            let s = sinner("S", code, height);
            assert_eq!(s.guess(&s), all_correct);
            assert_eq!(s.guess(&s.clone()), all_correct);
        }
    }
}
