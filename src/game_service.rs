use vstd::prelude::*;

use crate::error::VortoResult;
use crate::game::{
    complete_round, minted_word_results, next_game, round_failure, words_recorded, Game,
};
use crate::requests::{CompleteRoundRequest, WordResultsDTO};
use crate::team_result::TeamResult;
use crate::word_result::WordResult;
use itertools::Itertools;

verus! {

/// The submitted outcomes as `(word_id, guessed)` pairs.
pub open spec fn outcome_pairs(items: Seq<WordResultsDTO>) -> Seq<(i32, bool)> {
    items.map_values(|d: WordResultsDTO| (d.word_id, d.result))
}

/// `s` with every pair dropped whose word already came earlier.
pub open spec fn first_by_word(s: Seq<(i32, bool)>) -> Seq<(i32, bool)>
    decreases s.len(),
{
    if s.len() == 0 {
        s
    } else {
        let prev = first_by_word(s.drop_last());
        if exists|j: int| 0 <= j < prev.len() && (#[trigger] prev[j]).0 == s.last().0 {
            prev
        } else {
            prev.push(s.last())
        }
    }
}

/// Relies on itertools' `unique_by`, keyed by the word: it keeps, in order,
/// the first item of each word and drops later ones.
#[verifier::external_body]
fn unique_by_word(items: &Vec<WordResultsDTO>) -> (r: Vec<(i32, bool)>)
    ensures
        r@ == first_by_word(outcome_pairs(items@)),
{
    items.iter().unique_by(|wd| wd.word_id).map(|wd| (wd.word_id, wd.result)).collect()
}

/// Plays a submitted round against the loaded game: every word counts once,
/// at its first occurrence in the request, and the batch goes to
/// `complete_round` with the request's token.
pub fn play_round(
    game: &Game,
    team_results_words: &Vec<(TeamResult, Vec<WordResult>)>,
    req: &CompleteRoundRequest,
    now: i64,
) -> (r: VortoResult<(Game, Vec<WordResult>)>)
    requires
        game.wf(),
        game.turn < i32::MAX,
        team_results_words@.len() > 0,
        words_recorded(team_results_words@) <= usize::MAX,
    ensures
        ({
            let batch = first_by_word(outcome_pairs(req.word_results@));
            match r {
                VortoResult::Failure(e) => {
                    let f = round_failure(*game, team_results_words@, batch, req.token@, now);
                    f is Some && e.has_code(f->Some_0)
                },
                VortoResult::Success((g, wrs)) => {
                    &&& round_failure(*game, team_results_words@, batch, req.token@, now) is None
                    &&& g == next_game(*game, team_results_words@, batch)
                    &&& wrs@ == minted_word_results(team_results_words@, game.turn, batch)
                },
            }
        }),
{
    let batch = unique_by_word(&req.word_results);
    complete_round(game, team_results_words, &batch, req.token.as_str(), now)
}

/// Gives every team result the id under which its game was stored.
pub fn assign_game_id(team_results: &mut Vec<TeamResult>, game_id: i32)
    ensures
        final(team_results)@.len() == old(team_results)@.len(),
        forall|i: int|
            0 <= i < old(team_results)@.len() ==> #[trigger] final(team_results)@[i] == (TeamResult {
                game_id,
                ..old(team_results)@[i]
            }),
{
    let n = team_results.len();
    for i in 0..n
        invariant
            n == team_results@.len(),
            n == old(team_results)@.len(),
            forall|k: int|
                0 <= k < i ==> #[trigger] team_results@[k] == (TeamResult {
                    game_id,
                    ..old(team_results)@[k]
                }),
            forall|k: int| i <= k < n ==> #[trigger] team_results@[k] == old(team_results)@[k],
    {
        let mut tr = team_results[i];
        tr.game_id = game_id;
        team_results.set(i, tr);
    }
}

} // verus!
