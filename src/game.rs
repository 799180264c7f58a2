use vstd::prelude::*;

use crate::common::validate_fn;
use crate::enums::GameState;
use crate::error::{VortoError, VortoErrorCode, VortoResult};
use crate::team::Team;
use crate::team_result::{self, TeamResult};
use crate::word_result::{self, WordResult};

verus! {

/// How long a game stays open after it was created.
pub const EXPIRED_HOURS: i64 = 10;

pub const MICROS_PER_HOUR: i64 = 3_600_000_000;

/// `EXPIRED_HOURS` in microseconds.
pub const EXPIRY_MICROS: i64 = EXPIRED_HOURS * MICROS_PER_HOUR;

/// A game session. Times are microseconds since the Unix epoch, in UTC.
#[derive(Debug, Clone)]
pub struct Game {
    pub id: i32,
    pub state: GameState,
    pub word_count: i32,
    pub penalty: bool,
    pub round_time: i32,
    pub winner_id: Option<i32>,
    pub turn: i32,
    pub token: String,
    pub created_at: i64,
    pub expired_at: i64,
}

impl Game {
    /// The game's invariant: a winner is set exactly when the game has ended,
    /// and the turn counter never goes below zero.
    pub open spec fn wf(&self) -> bool {
        &&& (self.winner_id is Some <==> self.state == GameState::Ended)
        &&& self.turn >= 0
    }
}

// ----- score -----

/// The score of one outcome: a guessed word earns a point; a missed word
/// costs one only when the game plays with penalty.
pub open spec fn outcome_score(penalty: bool, result: bool) -> int {
    if result {
        1
    } else if penalty {
        -1
    } else {
        0
    }
}

/// The score of a sequence of outcomes.
pub open spec fn score_of(penalty: bool, outcomes: Seq<bool>) -> int
    decreases outcomes.len(),
{
    if outcomes.len() == 0 {
        0
    } else {
        score_of(penalty, outcomes.drop_last()) + outcome_score(penalty, outcomes.last())
    }
}

/// How many of `outcomes` equal `v`.
pub open spec fn count_of(outcomes: Seq<bool>, v: bool) -> nat
    decreases outcomes.len(),
{
    if outcomes.len() == 0 {
        0
    } else {
        count_of(outcomes.drop_last(), v) + if outcomes.last() == v {
            1nat
        } else {
            0nat
        }
    }
}

/// The outcomes of a list of word results.
pub open spec fn outcomes_of(wrs: Seq<WordResult>) -> Seq<bool> {
    wrs.map_values(|w: WordResult| w.result)
}

/// A score never exceeds the number of outcomes in size.
pub proof fn lemma_score_bounded(penalty: bool, outcomes: Seq<bool>)
    ensures
        -outcomes.len() <= score_of(penalty, outcomes) <= outcomes.len(),
    decreases outcomes.len(),
{
    if outcomes.len() > 0 {
        lemma_score_bounded(penalty, outcomes.drop_last());
    }
}

/// Without penalty a score counts the guessed words; with penalty it is the
/// guessed words less the missed ones.
pub proof fn lemma_score_counts(penalty: bool, outcomes: Seq<bool>)
    ensures
        !penalty ==> score_of(penalty, outcomes) == count_of(outcomes, true),
        penalty ==> score_of(penalty, outcomes) == count_of(outcomes, true) - count_of(
            outcomes,
            false,
        ),
    decreases outcomes.len(),
{
    if outcomes.len() > 0 {
        lemma_score_counts(penalty, outcomes.drop_last());
    }
}

pub fn get_score(penalty: bool, result: bool) -> (r: i32)
    ensures
        r == outcome_score(penalty, result),
{
    match (result, penalty) {
        (true, _) => 1,
        (false, true) => -1,
        (false, false) => 0,
    }
}

pub fn calc_score(penalty: bool, scores: &Vec<bool>) -> (r: i32)
    requires
        scores@.len() <= i32::MAX,
    ensures
        r == score_of(penalty, scores@),
{
    let mut total: i32 = 0;
    let n = scores.len();
    for i in 0..n
        invariant
            n == scores@.len(),
            n <= i32::MAX,
            total == score_of(penalty, scores@.take(i as int)),
            -i <= total <= i,
    {
        proof {
            assert(scores@.take(i + 1).drop_last() =~= scores@.take(i as int));
        }
        total = total + get_score(penalty, scores[i]);
    }
    proof {
        assert(scores@.take(n as int) =~= scores@);
    }
    total
}

/// The outcomes of `wrs`, in order.
pub fn outcomes(wrs: &Vec<WordResult>) -> (r: Vec<bool>)
    ensures
        r@ == outcomes_of(wrs@),
{
    let mut r: Vec<bool> = Vec::new();
    let n = wrs.len();
    for i in 0..n
        invariant
            n == wrs@.len(),
            r@ =~= outcomes_of(wrs@.take(i as int)),
    {
        r.push(wrs[i].result);
    }
    proof {
        assert(wrs@.take(n as int) =~= wrs@);
    }
    r
}

// ----- validation -----

pub fn validate_team_count(teams: &Vec<Team>) -> (r: VortoResult<()>)
    ensures
        r is Failure <==> teams@.len() < 2,
        r is Failure ==> r->Failure_0.has_code(VortoErrorCode::TeamSize),
{
    let n = teams.len();
    let is_failed = || -> (b: bool)
        ensures
            b == (n < 2),
        { n < 2 };
    validate_fn(
        is_failed,
        VortoError::new(VortoErrorCode::TeamSize, String::from_str("Should be at least 2 teams")),
    )
}

pub fn validate_round_time(round_time: i32) -> (r: VortoResult<()>)
    ensures
        r is Failure <==> !(1 <= round_time <= 1000),
        r is Failure ==> r->Failure_0.has_code(VortoErrorCode::Validation),
{
    let is_failed = || -> (b: bool)
        ensures
            b == (round_time < 1 || round_time > 1000),
        { round_time < 1 || round_time > 1000 };
    validate_fn(
        is_failed,
        VortoError::new(VortoErrorCode::Validation, String::from_str("Round time valid range 1-1000")),
    )
}

pub fn validate_word_count(word_count: i32) -> (r: VortoResult<()>)
    ensures
        r is Failure <==> !(1 <= word_count <= 500),
        r is Failure ==> r->Failure_0.has_code(VortoErrorCode::Validation),
{
    let is_failed = || -> (b: bool)
        ensures
            b == (word_count < 1 || word_count > 500),
        { word_count < 1 || word_count > 500 };
    validate_fn(
        is_failed,
        VortoError::new(VortoErrorCode::Validation, String::from_str("Word count valid range 1-500")),
    )
}

pub fn validate_token(game: &Game, token: &str) -> (r: VortoResult<()>)
    ensures
        r is Failure <==> game.token@ != token@,
        r is Failure ==> r->Failure_0.has_code(VortoErrorCode::InvalidGameToken),
{
    let matches = crate::enums::same_text(game.token.as_str(), token);
    let is_failed = || -> (b: bool)
        ensures
            b == !matches,
        { !matches };
    validate_fn(
        is_failed,
        VortoError::new(VortoErrorCode::InvalidGameToken, String::from_str("Invalid game token")),
    )
}

pub fn validate_active(game: &Game) -> (r: VortoResult<()>)
    ensures
        r is Failure <==> game.state != GameState::Active,
        r is Failure ==> r->Failure_0.has_code(VortoErrorCode::ActiveGame),
{
    let active = game.state == GameState::Active;
    let is_failed = || -> (b: bool)
        ensures
            b == !active,
        { !active };
    validate_fn(
        is_failed,
        VortoError::new(VortoErrorCode::ActiveGame, String::from_str("Game must be active")),
    )
}

/// A game can no longer be played from the moment `expired_at` is reached.
pub fn validate_expired(game: &Game, now: i64) -> (r: VortoResult<()>)
    ensures
        r is Failure <==> now >= game.expired_at,
        r is Failure ==> r->Failure_0.has_code(VortoErrorCode::ExpiredGame),
{
    let expired_at = game.expired_at;
    let is_failed = || -> (b: bool)
        ensures
            b == (now >= expired_at),
        { now >= expired_at };
    validate_fn(
        is_failed,
        VortoError::new(VortoErrorCode::ExpiredGame, String::from_str("Game has expired")),
    )
}

// ----- creation -----

/// The first failing check of game creation, in the order team count,
/// round time, word count.
pub open spec fn creation_failure(team_count: int, round_time: i32, word_count: i32) -> Option<
    VortoErrorCode,
> {
    if team_count < 2 {
        Some(VortoErrorCode::TeamSize)
    } else if !(1 <= round_time <= 1000) {
        Some(VortoErrorCode::Validation)
    } else if !(1 <= word_count <= 500) {
        Some(VortoErrorCode::Validation)
    } else {
        None
    }
}

/// A freshly created game: active, at turn zero, with no winner, open for
/// `EXPIRED_HOURS` from `now`.
pub open spec fn created_game(
    id: i32,
    word_count: i32,
    penalty: bool,
    round_time: i32,
    token: String,
    now: i64,
) -> Game {
    Game {
        id,
        state: GameState::Active,
        word_count,
        penalty,
        round_time,
        winner_id: None,
        turn: 0,
        token,
        created_at: now,
        expired_at: (now + EXPIRY_MICROS) as i64,
    }
}

/// One team result per team, placed in the rotation in the order the teams were given.
pub open spec fn initial_team_results(teams: Seq<Team>) -> Seq<TeamResult> {
    Seq::new(
        teams.len(),
        |i: int| TeamResult { id: -1i32, team_id: teams[i].id, game_id: -1i32, order: i as i32 },
    )
}

/// Relies on uuid's `Uuid::new_v4` and its `Display`: a random version-4 UUID
/// in the hyphenated form, which is 36 characters long.
#[verifier::external_body]
fn new_token() -> (r: String)
    ensures
        r@.len() == 36,
{
    uuid::Uuid::new_v4().to_string()
}

/// Creates a game with the given access token, and its team results.
pub fn new_with_token(
    id: i32,
    word_count: i32,
    penalty: bool,
    round_time: i32,
    teams: &Vec<Team>,
    now: i64,
    token: String,
) -> (r: VortoResult<(Game, Vec<TeamResult>)>)
    requires
        now <= i64::MAX - EXPIRY_MICROS,
        teams@.len() <= i32::MAX,
    ensures
        match r {
            VortoResult::Failure(e) => {
                &&& creation_failure(teams@.len() as int, round_time, word_count) is Some
                &&& e.has_code(creation_failure(teams@.len() as int, round_time, word_count)->Some_0)
            },
            VortoResult::Success((g, trs)) => {
                &&& creation_failure(teams@.len() as int, round_time, word_count) is None
                &&& g == created_game(id, word_count, penalty, round_time, token, now)
                &&& trs@ == initial_team_results(teams@)
            },
        },
{
    match validate_team_count(teams) {
        VortoResult::Failure(e) => {
            return VortoResult::Failure(e);
        },
        VortoResult::Success(_) => {},
    }
    match validate_round_time(round_time) {
        VortoResult::Failure(e) => {
            return VortoResult::Failure(e);
        },
        VortoResult::Success(_) => {},
    }
    match validate_word_count(word_count) {
        VortoResult::Failure(e) => {
            return VortoResult::Failure(e);
        },
        VortoResult::Success(_) => {},
    }
    let game = Game {
        id,
        state: GameState::Active,
        word_count,
        penalty,
        round_time,
        winner_id: None,
        turn: 0,
        token,
        created_at: now,
        expired_at: now + EXPIRY_MICROS,
    };
    let mut team_results: Vec<TeamResult> = Vec::new();
    let n = teams.len();
    for index in 0..n
        invariant
            n == teams@.len(),
            n <= i32::MAX,
            team_results@ =~= initial_team_results(teams@).take(index as int),
    {
        match team_result::new(-1, teams[index].id, -1, index as i32) {
            VortoResult::Success(tr) => team_results.push(tr),
            VortoResult::Failure(_) => unreached(),
        }
    }
    proof {
        assert(initial_team_results(teams@).take(n as int) =~= initial_team_results(teams@));
    }
    VortoResult::Success((game, team_results))
}

/// Creates a game with a fresh random access token, and its team results.
pub fn new(id: i32, word_count: i32, penalty: bool, round_time: i32, teams: &Vec<Team>, now: i64) -> (r:
    VortoResult<(Game, Vec<TeamResult>)>)
    requires
        now <= i64::MAX - EXPIRY_MICROS,
        teams@.len() <= i32::MAX,
    ensures
        match r {
            VortoResult::Failure(e) => {
                &&& creation_failure(teams@.len() as int, round_time, word_count) is Some
                &&& e.has_code(creation_failure(teams@.len() as int, round_time, word_count)->Some_0)
            },
            VortoResult::Success((g, trs)) => {
                &&& creation_failure(teams@.len() as int, round_time, word_count) is None
                &&& g == created_game(id, word_count, penalty, round_time, g.token, now)
                &&& g.token@.len() == 36
                &&& trs@ == initial_team_results(teams@)
            },
        },
{
    new_with_token(id, word_count, penalty, round_time, teams, now, new_token())
}

// ----- round completion -----

/// The number of word results recorded over all team results of a game.
pub open spec fn words_recorded(trws: Seq<(TeamResult, Vec<WordResult>)>) -> int
    decreases trws.len(),
{
    if trws.len() == 0 {
        0
    } else {
        words_recorded(trws.drop_last()) + trws.last().1@.len()
    }
}

/// The position of the acting team: the turn counter taken modulo the number of teams.
pub open spec fn acting_index(turn: i32, team_count: int) -> int {
    turn as int % team_count
}

/// The outcomes of a submitted batch of `(word_id, guessed)` pairs.
pub open spec fn batch_outcomes(batch: Seq<(i32, bool)>) -> Seq<bool> {
    batch.map_values(|p: (i32, bool)| p.1)
}

/// The final total of team `i`: the score of its recorded words, plus the
/// score of the batch when it is the acting team.
pub open spec fn team_total(
    penalty: bool,
    trws: Seq<(TeamResult, Vec<WordResult>)>,
    acting: int,
    batch: Seq<(i32, bool)>,
    i: int,
) -> int {
    score_of(penalty, outcomes_of(trws[i].1@)) + if i == acting {
        score_of(penalty, batch_outcomes(batch))
    } else {
        0
    }
}

/// The first position, among the first `n`, whose total is the largest.
pub open spec fn leader_among(
    penalty: bool,
    trws: Seq<(TeamResult, Vec<WordResult>)>,
    acting: int,
    batch: Seq<(i32, bool)>,
    n: int,
) -> int
    decreases n,
{
    if n <= 1 {
        0
    } else {
        let b = leader_among(penalty, trws, acting, batch, n - 1);
        if team_total(penalty, trws, acting, batch, n - 1) > team_total(
            penalty,
            trws,
            acting,
            batch,
            b,
        ) {
            n - 1
        } else {
            b
        }
    }
}

/// The first failing check of round completion, in the order token, state,
/// expiry, word budget.
pub open spec fn round_failure(
    game: Game,
    trws: Seq<(TeamResult, Vec<WordResult>)>,
    batch: Seq<(i32, bool)>,
    token: Seq<char>,
    now: i64,
) -> Option<VortoErrorCode> {
    if game.token@ != token {
        Some(VortoErrorCode::InvalidGameToken)
    } else if game.state != GameState::Active {
        Some(VortoErrorCode::ActiveGame)
    } else if now >= game.expired_at {
        Some(VortoErrorCode::ExpiredGame)
    } else if words_recorded(trws) + batch.len() > game.word_count {
        Some(VortoErrorCode::TooManyWords)
    } else {
        None
    }
}

/// Whether the batch uses up exactly the rest of the game's word budget.
pub open spec fn is_final_batch(
    game: Game,
    trws: Seq<(TeamResult, Vec<WordResult>)>,
    batch: Seq<(i32, bool)>,
) -> bool {
    words_recorded(trws) + batch.len() == game.word_count
}

/// The game after a successful round: ended with the leading team as winner
/// when the budget is used up, else passed on to the next turn.
pub open spec fn next_game(
    game: Game,
    trws: Seq<(TeamResult, Vec<WordResult>)>,
    batch: Seq<(i32, bool)>,
) -> Game {
    if is_final_batch(game, trws, batch) {
        let w = leader_among(
            game.penalty,
            trws,
            acting_index(game.turn, trws.len() as int),
            batch,
            trws.len() as int,
        );
        Game { state: GameState::Ended, winner_id: Some(trws[w].0.id), ..game }
    } else {
        Game { turn: (game.turn + 1) as i32, ..game }
    }
}

/// The word results recorded for a batch: numbered from zero within the
/// batch, and owned by the acting team.
pub open spec fn minted_word_results(
    trws: Seq<(TeamResult, Vec<WordResult>)>,
    turn: i32,
    batch: Seq<(i32, bool)>,
) -> Seq<WordResult> {
    Seq::new(
        batch.len(),
        |i: int|
            WordResult {
                id: -1i32,
                result: batch[i].1,
                order: i as i32,
                word_id: batch[i].0,
                team_result_id: trws[acting_index(turn, trws.len() as int)].0.id,
            },
    )
}

proof fn lemma_words_recorded_bounds(trws: Seq<(TeamResult, Vec<WordResult>)>)
    ensures
        words_recorded(trws) >= 0,
        forall|i: int| 0 <= i < trws.len() ==> #[trigger] trws[i].1@.len() <= words_recorded(trws),
        forall|i: int|
            0 <= i <= trws.len() ==> #[trigger] words_recorded(trws.take(i)) <= words_recorded(
                trws,
            ),
    decreases trws.len(),
{
    if trws.len() > 0 {
        let init = trws.drop_last();
        lemma_words_recorded_bounds(init);
        assert forall|i: int| 0 <= i <= trws.len() implies #[trigger] words_recorded(trws.take(i))
            <= words_recorded(trws) by {
            if i < trws.len() {
                assert(trws.take(i) =~= init.take(i));
            } else {
                assert(trws.take(i) =~= trws);
            }
        }
        assert forall|i: int| 0 <= i < trws.len() implies #[trigger] trws[i].1@.len()
            <= words_recorded(trws) by {
            if i < trws.len() - 1 {
                assert(trws[i] == init[i]);
            }
        }
    }
}

pub fn get_game_word_count(team_results_words: &Vec<(TeamResult, Vec<WordResult>)>) -> (r: usize)
    requires
        words_recorded(team_results_words@) <= usize::MAX,
    ensures
        r == words_recorded(team_results_words@),
{
    proof {
        lemma_words_recorded_bounds(team_results_words@);
    }
    let mut total: usize = 0;
    let n = team_results_words.len();
    for i in 0..n
        invariant
            n == team_results_words@.len(),
            words_recorded(team_results_words@) <= usize::MAX,
            total == words_recorded(team_results_words@.take(i as int)),
            forall|k: int|
                0 <= k <= team_results_words@.len() ==> #[trigger] words_recorded(
                    team_results_words@.take(k),
                ) <= words_recorded(team_results_words@),
    {
        proof {
            assert(team_results_words@.take(i + 1).drop_last() =~= team_results_words@.take(
                i as int,
            ));
            assert(words_recorded(team_results_words@.take(i + 1)) <= words_recorded(
                team_results_words@,
            ));
        }
        total = total + team_results_words[i].1.len();
    }
    proof {
        assert(team_results_words@.take(n as int) =~= team_results_words@);
    }
    total
}

/// The position of the acting team for a turn counter.
pub fn current_team_index(turn: i32, team_count: usize) -> (r: usize)
    requires
        turn >= 0,
        team_count > 0,
    ensures
        r == acting_index(turn, team_count as int),
        r < team_count,
{
    (turn as usize) % team_count
}

/// The team result whose turn it is; turns go round the teams in their order.
pub fn get_current_team_result(
    game: &Game,
    team_results_words: &Vec<(TeamResult, Vec<WordResult>)>,
) -> (r: TeamResult)
    requires
        game.turn >= 0,
        team_results_words@.len() > 0,
    ensures
        r == team_results_words@[acting_index(game.turn, team_results_words@.len() as int)].0,
{
    let index = current_team_index(game.turn, team_results_words.len());
    team_results_words[index].0
}

pub fn validate_words_count(
    game: &Game,
    team_results_words: &Vec<(TeamResult, Vec<WordResult>)>,
    word_results: &Vec<(i32, bool)>,
) -> (r: VortoResult<()>)
    requires
        words_recorded(team_results_words@) <= usize::MAX,
    ensures
        r is Failure <==> words_recorded(team_results_words@) + word_results@.len()
            > game.word_count,
        r is Failure ==> r->Failure_0.has_code(VortoErrorCode::TooManyWords),
{
    let current = get_game_word_count(team_results_words);
    let batch = word_results.len();
    let word_count = game.word_count;
    let is_failed = || -> (b: bool)
        ensures
            b == (current as int + batch as int > word_count as int),
        {
            word_count < 0 || current > word_count as usize || batch > word_count as usize
                - current
        };
    validate_fn(
        is_failed,
        VortoError::new(VortoErrorCode::TooManyWords, String::from_str("Too many words")),
    )
}

/// The outcomes of a batch, in order.
pub fn batch_results(batch: &Vec<(i32, bool)>) -> (r: Vec<bool>)
    ensures
        r@ == batch_outcomes(batch@),
{
    let mut r: Vec<bool> = Vec::new();
    let n = batch.len();
    for i in 0..n
        invariant
            n == batch@.len(),
            r@ =~= batch_outcomes(batch@.take(i as int)),
    {
        r.push(batch[i].1);
    }
    proof {
        assert(batch@.take(n as int) =~= batch@);
    }
    r
}

/// The team result with the largest final total; on a tie, the first one.
pub fn get_hightest_score_team_result(
    game: &Game,
    team_results_words: &Vec<(TeamResult, Vec<WordResult>)>,
    word_with_results: &Vec<(i32, bool)>,
    acting: usize,
) -> (r: TeamResult)
    requires
        team_results_words@.len() > 0,
        acting < team_results_words@.len(),
        words_recorded(team_results_words@) + word_with_results@.len() <= i32::MAX,
    ensures
        r == team_results_words@[leader_among(
            game.penalty,
            team_results_words@,
            acting as int,
            word_with_results@,
            team_results_words@.len() as int,
        )].0,
{
    let ghost trws = team_results_words@;
    let ghost batch = word_with_results@;
    let penalty = game.penalty;
    proof {
        lemma_words_recorded_bounds(trws);
        lemma_score_bounded(penalty, batch_outcomes(batch));
    }
    let batch_score = calc_score(penalty, &batch_results(word_with_results));
    let n = team_results_words.len();
    let mut best: usize = 0;
    let mut best_total: i32 = 0;
    for i in 0..n
        invariant
            n == trws.len(),
            trws == team_results_words@,
            batch == word_with_results@,
            penalty == game.penalty,
            acting < n,
            words_recorded(trws) + batch.len() <= i32::MAX,
            forall|k: int| 0 <= k < trws.len() ==> #[trigger] trws[k].1@.len() <= words_recorded(trws),
            batch_score == score_of(penalty, batch_outcomes(batch)),
            -batch.len() <= batch_score <= batch.len(),
            i == 0 ==> best == 0,
            i > 0 ==> best == leader_among(penalty, trws, acting as int, batch, i as int),
            i > 0 ==> best_total == team_total(penalty, trws, acting as int, batch, best as int),
            best < n,
    {
        let recorded = outcomes(&team_results_words[i].1);
        proof {
            assert(trws[i as int].1@.len() <= words_recorded(trws));
            lemma_score_bounded(penalty, outcomes_of(trws[i as int].1@));
        }
        let mut total = calc_score(penalty, &recorded);
        if i == acting {
            total = total + batch_score;
        }
        if i == 0 || total > best_total {
            best = i;
            best_total = total;
        }
    }
    team_results_words[best].0
}

/// Records a batch of outcomes for the acting team and advances the game.
pub fn complete_round(
    game: &Game,
    team_results_words: &Vec<(TeamResult, Vec<WordResult>)>,
    new_word_with_results: &Vec<(i32, bool)>,
    token: &str,
    now: i64,
) -> (r: VortoResult<(Game, Vec<WordResult>)>)
    requires
        game.wf(),
        game.turn < i32::MAX,
        team_results_words@.len() > 0,
        words_recorded(team_results_words@) <= usize::MAX,
    ensures
        match r {
            VortoResult::Failure(e) => {
                let f = round_failure(
                    *game,
                    team_results_words@,
                    new_word_with_results@,
                    token@,
                    now,
                );
                f is Some && e.has_code(f->Some_0)
            },
            VortoResult::Success((g, wrs)) => {
                &&& round_failure(
                    *game,
                    team_results_words@,
                    new_word_with_results@,
                    token@,
                    now,
                ) is None
                &&& g == next_game(*game, team_results_words@, new_word_with_results@)
                &&& wrs@ == minted_word_results(
                    team_results_words@,
                    game.turn,
                    new_word_with_results@,
                )
            },
        },
{
    match validate_token(game, token) {
        VortoResult::Failure(e) => {
            return VortoResult::Failure(e);
        },
        VortoResult::Success(_) => {},
    }
    match validate_active(game) {
        VortoResult::Failure(e) => {
            return VortoResult::Failure(e);
        },
        VortoResult::Success(_) => {},
    }
    match validate_expired(game, now) {
        VortoResult::Failure(e) => {
            return VortoResult::Failure(e);
        },
        VortoResult::Success(_) => {},
    }
    let current_team_result = get_current_team_result(game, team_results_words);
    match validate_words_count(game, team_results_words, new_word_with_results) {
        VortoResult::Failure(e) => {
            return VortoResult::Failure(e);
        },
        VortoResult::Success(_) => {},
    }
    let progress = get_game_word_count(team_results_words);
    let is_game_over = game.word_count as usize == progress + new_word_with_results.len();

    let new_game = if is_game_over {
        let acting = current_team_index(game.turn, team_results_words.len());
        let highest = get_hightest_score_team_result(
            game,
            team_results_words,
            new_word_with_results,
            acting,
        );
        Game {
            id: game.id,
            state: GameState::Ended,
            word_count: game.word_count,
            penalty: game.penalty,
            round_time: game.round_time,
            winner_id: Some(highest.id),
            turn: game.turn,
            token: game.token.clone(),
            created_at: game.created_at,
            expired_at: game.expired_at,
        }
    } else {
        Game {
            id: game.id,
            state: game.state,
            word_count: game.word_count,
            penalty: game.penalty,
            round_time: game.round_time,
            winner_id: game.winner_id,
            turn: game.turn + 1,
            token: game.token.clone(),
            created_at: game.created_at,
            expired_at: game.expired_at,
        }
    };

    let ghost minted = minted_word_results(
        team_results_words@,
        game.turn,
        new_word_with_results@,
    );
    let mut new_word_results: Vec<WordResult> = Vec::new();
    let n = new_word_with_results.len();
    for order in 0..n
        invariant
            n == new_word_with_results@.len(),
            n <= i32::MAX,
            minted == minted_word_results(team_results_words@, game.turn, new_word_with_results@),
            current_team_result == team_results_words@[acting_index(
                game.turn,
                team_results_words@.len() as int,
            )].0,
            new_word_results@ =~= minted.take(order as int),
    {
        let (word_id, result) = new_word_with_results[order];
        new_word_results.push(
            word_result::new(-1, result, order as i32, word_id, current_team_result.id),
        );
    }
    proof {
        assert(minted.take(n as int) =~= minted);
    }
    VortoResult::Success((new_game, new_word_results))
}

/// Fails when the stored game has moved on from the snapshot a round was
/// computed from: its turn or its state changed in the meantime. Storage
/// runs this before committing a round, so that a stale resubmission is
/// rejected.
pub fn validate_snapshot(stored: &Game, snapshot: &Game) -> (r: VortoResult<()>)
    ensures
        r is Failure <==> (stored.turn != snapshot.turn || stored.state != snapshot.state),
        r is Failure ==> r->Failure_0.has_code(VortoErrorCode::ActiveGame),
{
    let changed = stored.turn != snapshot.turn || stored.state != snapshot.state;
    let is_failed = || -> (b: bool)
        ensures
            b == changed,
        { changed };
    validate_fn(
        is_failed,
        VortoError::new(
            VortoErrorCode::ActiveGame,
            String::from_str("Game was changed by another round"),
        ),
    )
}

// ----- laws -----

/// The winner of a finished game has a total at least as large as every
/// other team's, and a strictly larger one than every team before it: ties
/// go to the team that comes first.
pub proof fn lemma_leader_first_max(
    penalty: bool,
    trws: Seq<(TeamResult, Vec<WordResult>)>,
    acting: int,
    batch: Seq<(i32, bool)>,
    n: int,
)
    requires
        1 <= n <= trws.len(),
    ensures
        0 <= leader_among(penalty, trws, acting, batch, n) < n,
        forall|j: int|
            0 <= j < n ==> #[trigger] team_total(penalty, trws, acting, batch, j) <= team_total(
                penalty,
                trws,
                acting,
                batch,
                leader_among(penalty, trws, acting, batch, n),
            ),
        forall|j: int|
            0 <= j < leader_among(penalty, trws, acting, batch, n) ==> #[trigger] team_total(
                penalty,
                trws,
                acting,
                batch,
                j,
            ) < team_total(penalty, trws, acting, batch, leader_among(penalty, trws, acting, batch, n)),
    decreases n,
{
    if n > 1 {
        lemma_leader_first_max(penalty, trws, acting, batch, n - 1);
    }
}

/// A successful round either ends the game, naming a winner and keeping the
/// turn, when the batch uses up the word budget exactly; or it keeps the game
/// active without a winner and moves the turn on by one. Either way the
/// game's invariant holds afterwards.
pub proof fn lemma_round_outcome(
    game: Game,
    trws: Seq<(TeamResult, Vec<WordResult>)>,
    batch: Seq<(i32, bool)>,
    token: Seq<char>,
    now: i64,
)
    requires
        game.wf(),
        game.turn < i32::MAX,
        trws.len() > 0,
        round_failure(game, trws, batch, token, now) is None,
    ensures
        is_final_batch(game, trws, batch) ==> {
            &&& next_game(game, trws, batch).state == GameState::Ended
            &&& next_game(game, trws, batch).winner_id is Some
            &&& next_game(game, trws, batch).turn == game.turn
        },
        !is_final_batch(game, trws, batch) ==> {
            &&& next_game(game, trws, batch).state == GameState::Active
            &&& next_game(game, trws, batch).winner_id is None
            &&& next_game(game, trws, batch).turn == game.turn + 1
        },
        next_game(game, trws, batch).wf(),
{
}

/// The winner of a finished game is the first team with the largest total.
pub proof fn lemma_winner_is_first_leader(
    game: Game,
    trws: Seq<(TeamResult, Vec<WordResult>)>,
    batch: Seq<(i32, bool)>,
)
    requires
        trws.len() > 0,
        game.turn >= 0,
        is_final_batch(game, trws, batch),
    ensures
        ({
            let acting = acting_index(game.turn, trws.len() as int);
            let w = leader_among(game.penalty, trws, acting, batch, trws.len() as int);
            &&& 0 <= w < trws.len()
            &&& next_game(game, trws, batch).winner_id == Some(trws[w].0.id)
            &&& forall|j: int|
                0 <= j < trws.len() ==> #[trigger] team_total(game.penalty, trws, acting, batch, j)
                    <= team_total(game.penalty, trws, acting, batch, w)
            &&& forall|j: int|
                0 <= j < w ==> #[trigger] team_total(game.penalty, trws, acting, batch, j)
                    < team_total(game.penalty, trws, acting, batch, w)
        }),
{
    let acting = acting_index(game.turn, trws.len() as int);
    lemma_leader_first_max(game.penalty, trws, acting, batch, trws.len() as int);
}

/// The acting team is found by the turn counter modulo the number of teams,
/// however far the counter has run past that number.
pub proof fn lemma_acting_team_rotates(turn: i32, team_count: int)
    requires
        turn >= 0,
        team_count > 0,
    ensures
        0 <= acting_index(turn, team_count) < team_count,
        turn + team_count <= i32::MAX ==> acting_index((turn + team_count) as i32, team_count)
            == acting_index(turn, team_count),
{
    if turn + team_count <= i32::MAX {
        vstd::arithmetic::div_mod::lemma_mod_add_multiples_vanish(turn as int, team_count);
    }
}

/// An expired game refuses a round with `ExpiredGame`, even when the token is
/// right and the game is active.
pub proof fn lemma_expired_game_rejected(
    game: Game,
    trws: Seq<(TeamResult, Vec<WordResult>)>,
    batch: Seq<(i32, bool)>,
    token: Seq<char>,
    now: i64,
)
    requires
        game.token@ == token,
        game.state == GameState::Active,
        now >= game.expired_at,
    ensures
        round_failure(game, trws, batch, token, now) == Some(VortoErrorCode::ExpiredGame),
{
}

/// A batch that would take the game past its word budget is refused with
/// `TooManyWords`; a refused round yields no word results.
pub proof fn lemma_overfull_batch_rejected(
    game: Game,
    trws: Seq<(TeamResult, Vec<WordResult>)>,
    batch: Seq<(i32, bool)>,
    token: Seq<char>,
    now: i64,
)
    requires
        game.token@ == token,
        game.state == GameState::Active,
        now < game.expired_at,
        words_recorded(trws) + batch.len() > game.word_count,
    ensures
        round_failure(game, trws, batch, token, now) == Some(VortoErrorCode::TooManyWords),
{
}

/// Once a round has been completed, the snapshot it was computed from is
/// stale: checking it against the stored game fails, and a game that the
/// round ended refuses any further round.
pub proof fn lemma_completed_round_not_replayable(
    game: Game,
    trws: Seq<(TeamResult, Vec<WordResult>)>,
    batch: Seq<(i32, bool)>,
    token: Seq<char>,
    now: i64,
    later_trws: Seq<(TeamResult, Vec<WordResult>)>,
    later_batch: Seq<(i32, bool)>,
    later_now: i64,
)
    requires
        game.wf(),
        game.turn < i32::MAX,
        trws.len() > 0,
        round_failure(game, trws, batch, token, now) is None,
    ensures
        next_game(game, trws, batch).turn != game.turn || next_game(game, trws, batch).state
            != game.state,
        next_game(game, trws, batch).state == GameState::Ended ==> round_failure(
            next_game(game, trws, batch),
            later_trws,
            later_batch,
            token,
            later_now,
        ) == Some(VortoErrorCode::ActiveGame),
{
}

} // verus!
