//! Playing every game of a roster and the figures that sum the games up.

use vstd::prelude::*;

use crate::data::{copy_of, views, Sinner, SinnerView};
use crate::play::{
    answered_by, best_index, codes_tell_apart, guessed, is_best, outcome, play_game, playable,
    trace, GameRecord, OptimalPlayer, Player,
};

verus! {

/// The number that each game of a roster reports, the sinners taken as the
/// secret in roster order.
pub open spec fn outcomes(roster: Seq<SinnerView>) -> Seq<int> {
    Seq::new(roster.len(), |i: int| outcome(roster[i], roster))
}

/// The test for being `value`.
pub open spec fn equals(value: int) -> spec_fn(int) -> bool {
    |x: int| x == value
}

/// How often `value` occurs among `values`.
pub open spec fn times(values: Seq<int>, value: int) -> nat {
    values.filter(equals(value)).len()
}

/// The sum of `values`.
pub open spec fn total(values: Seq<int>) -> int
    decreases values.len(),
{
    if values.len() == 0 {
        0
    } else {
        total(values.drop_last()) + values.last()
    }
}

/// Whether `most` occurs among `values` and none of them is greater.
pub open spec fn is_greatest(values: Seq<int>, most: int) -> bool {
    &&& exists|i: int| 0 <= i < values.len() && values[i] == most
    &&& forall|i: int| 0 <= i < values.len() ==> #[trigger] values[i] <= most
}

/// The places at which `value` occurs among `values`, in rising order.
pub open spec fn places(values: Seq<int>, value: int) -> Seq<usize>
    decreases values.len(),
{
    if values.len() == 0 {
        Seq::empty()
    } else if values.last() == value {
        places(values.drop_last(), value).push((values.len() - 1) as usize)
    } else {
        places(values.drop_last(), value)
    }
}

/// What playing every game of a roster showed.
#[derive(Debug)]
pub struct Statistics {
    /// The game for each sinner of the roster as the secret, in roster order.
    pub games: Vec<GameRecord>,
    /// The guess that opens every game.
    pub first_guess: Sinner,
    /// The greatest number that a game reported.
    pub max_rounds: u8,
    /// At `n - 1`, how many games reported `n`, for `n` from one to
    /// `max_rounds`.
    pub distribution: Vec<usize>,
    /// The roster positions of the secrets whose game reported `max_rounds`,
    /// in rising order.
    pub slowest: Vec<usize>,
    /// The sum of what the games reported.
    pub total_guesses: u32,
}

/// Counts how often `value` occurs among `values`.
fn count_of(values: &Vec<u8>, value: u8) -> (count: usize)
    ensures
        count == times(values@.map_values(|x: u8| x as int), value as int),
{
    let ghost all = values@.map_values(|x: u8| x as int);
    let ghost same = equals(value as int);
    let mut count: usize = 0;
    let mut i: usize = 0;
    while i < values.len()
        invariant
            i <= values.len(),
            count <= i,
            all == values@.map_values(|x: u8| x as int),
            same == equals(value as int),
            count == all.take(i as int).filter(same).len(),
        decreases values.len() - i,
    {
        proof {
            assert(all.take(i + 1) =~= all.take(i as int).push(all[i as int]));
            all.take(i as int).lemma_filter_push(all[i as int], same);
        }
        if values[i] == value {
            count += 1;
        }
        i += 1;
    }
    proof {
        assert(all.take(i as int) =~= all);
    }
    count
}

/// Plays the game for every sinner of the roster as the secret, each against
/// a fresh player for the whole roster, and sums the games up.
///
/// The roster must hold at least one sinner and fewer than 255, and no two
/// different sinners without a code.
pub fn gather_data(sinners: &[Sinner]) -> (stats: Statistics)
    requires
        0 < sinners.len() < 255,
        playable(views(sinners@)),
    ensures
        stats.games.len() == sinners.len(),
        forall|i: int|
            0 <= i < sinners.len() ==> {
                let game = #[trigger] stats.games[i];
                &&& guessed(game.rounds@) == trace(views(sinners@)[i], views(sinners@))
                &&& game.guess_count == outcome(views(sinners@)[i], views(sinners@))
                &&& forall|k: int|
                    0 <= k < game.rounds.len() ==> answered_by(
                        #[trigger] game.rounds[k],
                        views(sinners@)[i],
                    )
            },
        is_best(views(sinners@), best_index(views(sinners@))),
        stats.first_guess@ == views(sinners@)[best_index(views(sinners@))],
        is_greatest(outcomes(views(sinners@)), stats.max_rounds as int),
        stats.distribution.len() == stats.max_rounds,
        forall|n: int|
            1 <= n <= stats.max_rounds ==> #[trigger] stats.distribution[n - 1] == times(
                outcomes(views(sinners@)),
                n,
            ),
        stats.slowest@ == places(outcomes(views(sinners@)), stats.max_rounds as int),
        stats.total_guesses == total(outcomes(views(sinners@))),
{
    let ghost roster = views(sinners@);
    let ghost outs = outcomes(roster);
    let mut games: Vec<GameRecord> = Vec::new();
    let mut results: Vec<u8> = Vec::new();
    let mut sum: u32 = 0;
    let mut most: u8 = 0;
    let ghost mut most_at: int = 0;
    let mut i: usize = 0;
    while i < sinners.len()
        invariant
            i <= sinners.len() < 255,
            roster == views(sinners@),
            outs == outcomes(roster),
            games.len() == i,
            results.len() == i,
            playable(roster),
            forall|k: int|
                0 <= k < i ==> {
                    let game = #[trigger] games[k];
                    &&& guessed(game.rounds@) == trace(roster[k], roster)
                    &&& game.guess_count == outcome(roster[k], roster)
                    &&& forall|r: int|
                        0 <= r < game.rounds.len() ==> answered_by(
                            #[trigger] game.rounds[r],
                            roster[k],
                        )
                },
            forall|k: int| 0 <= k < i ==> #[trigger] results[k] == outs[k],
            sum == total(outs.take(i as int)),
            sum <= 255 * i,
            forall|k: int| 0 <= k < i ==> #[trigger] outs[k] <= most,
            i == 0 ==> most == 0,
            i > 0 ==> 0 <= most_at < i && outs[most_at] == most,
        decreases sinners.len() - i,
    {
        let player = OptimalPlayer::new(copy_of(sinners));
        proof {
            assert(roster[i as int] == sinners[i as int]@);
            assert(codes_tell_apart(roster[i as int], roster));
        }
        let game = play_game(&sinners[i], player);
        proof {
            assert(outs[i as int] == game.guess_count);
            assert(outs.take(i + 1).drop_last() =~= outs.take(i as int));
            assert(outs.take(i + 1).last() == outs[i as int]);
        }
        let count = game.guess_count;
        sum += count as u32;
        if count > most {
            most = count;
            proof {
                most_at = i as int;
            }
        }
        results.push(count);
        games.push(game);
        i += 1;
    }
    proof {
        assert(outs.take(i as int) =~= outs);
        assert(results@.map_values(|x: u8| x as int) =~= outs);
        assert(is_greatest(outs, most as int));
    }
    let opener = OptimalPlayer::new(copy_of(sinners));
    let first_guess = match opener.next_guess() {
        Some(sinner) => sinner.clone(),
        None => {
            proof {
                assert(false);
            }
            sinners[0].clone()
        },
    };
    let mut distribution: Vec<usize> = Vec::new();
    let mut n: u8 = 0;
    while n < most
        invariant
            n <= most,
            distribution.len() == n,
            results@.map_values(|x: u8| x as int) == outs,
            forall|m: int| 1 <= m <= n ==> #[trigger] distribution[m - 1] == times(outs, m),
        decreases most - n,
    {
        n += 1;
        let count = count_of(&results, n);
        distribution.push(count);
    }
    let mut slowest: Vec<usize> = Vec::new();
    let mut at: usize = 0;
    while at < results.len()
        invariant
            at <= results.len(),
            results@.map_values(|x: u8| x as int) == outs,
            slowest@ == places(outs.take(at as int), most as int),
        decreases results.len() - at,
    {
        proof {
            assert(outs.take(at + 1).drop_last() =~= outs.take(at as int));
            assert(outs.take(at + 1).last() == results[at as int]);
        }
        if results[at] == most {
            slowest.push(at);
        }
        at += 1;
    }
    proof {
        assert(outs.take(at as int) =~= outs);
    }
    Statistics { games, first_guess, max_rounds: most, distribution, slowest, total_guesses: sum }
}

} // verus!
