use vorto::enums::GameState;
use vorto::error::{VortoError, VortoErrorCode, VortoResult};
use vorto::game::{
    calc_score, complete_round, current_team_index, get_current_team_result, get_score, new,
    new_with_token, validate_active, validate_expired, validate_round_time, validate_snapshot,
    validate_team_count, validate_token, validate_word_count, Game, EXPIRY_MICROS,
};
use vorto::team::Team;
use vorto::team_result::TeamResult;
use vorto::word_result::WordResult;

fn team(id: i32, name: &str) -> Team {
    Team { id, name: name.to_owned() }
}

fn active_game(word_count: i32, penalty: bool, turn: i32) -> Game {
    Game {
        id: 7,
        state: GameState::Active,
        word_count,
        penalty,
        round_time: 60,
        winner_id: None,
        turn,
        token: "secret".to_owned(),
        created_at: 1_000,
        expired_at: 1_000 + EXPIRY_MICROS,
    }
}

fn team_result(id: i32, team_id: i32, order: i32) -> TeamResult {
    TeamResult { id, team_id, game_id: 7, order }
}

fn words(team_result_id: i32, results: &[bool]) -> Vec<WordResult> {
    results
        .iter()
        .enumerate()
        .map(|(i, r)| WordResult {
            id: team_result_id * 100 + i as i32,
            result: *r,
            order: i as i32,
            word_id: 1_000 + team_result_id * 100 + i as i32,
            team_result_id,
        })
        .collect()
}

fn code_of<T>(r: &VortoResult<T>) -> i32 {
    match r {
        VortoResult::Failure(e) => e.code,
        VortoResult::Success(_) => panic!("expected a failure"),
    }
}

fn success<T>(r: VortoResult<T>) -> T {
    match r {
        VortoResult::Success(v) => v,
        VortoResult::Failure(e) => panic!("unexpected failure: {}", e.message),
    }
}

#[test]
fn score_without_penalty_counts_guessed_words() {
    assert_eq!(calc_score(false, &vec![true, false, true]), 2);
    assert_eq!(calc_score(false, &vec![false, false]), 0);
    assert_eq!(calc_score(false, &vec![]), 0);
}

#[test]
fn score_with_penalty_subtracts_missed_words() {
    assert_eq!(calc_score(true, &vec![true, false, true]), 1);
    assert_eq!(calc_score(true, &vec![true, true]), 2);
    assert_eq!(calc_score(true, &vec![false, false, false]), -3);
}

#[test]
fn single_outcome_scores() {
    assert_eq!(get_score(false, true), 1);
    assert_eq!(get_score(true, true), 1);
    assert_eq!(get_score(true, false), -1);
    assert_eq!(get_score(false, false), 0);
}

#[test]
fn creation_orders_team_results_by_input() {
    let teams = vec![team(30, "A"), team(10, "B"), team(20, "C")];
    let (game, trs) = success(new(-1, 10, true, 60, &teams, 5_000));
    assert_eq!(trs.len(), 3);
    for (i, (tr, t)) in trs.iter().zip(teams.iter()).enumerate() {
        assert_eq!(tr.order, i as i32);
        assert_eq!(tr.team_id, t.id);
        assert_eq!(tr.id, -1);
        assert_eq!(tr.game_id, -1);
    }
    assert_eq!(game.state, GameState::Active);
    assert_eq!(game.turn, 0);
    assert_eq!(game.winner_id, None);
    assert_eq!(game.word_count, 10);
    assert!(game.penalty);
    assert_eq!(game.round_time, 60);
    assert_eq!(game.created_at, 5_000);
    assert_eq!(game.expired_at, 5_000 + 10 * 3_600_000_000);
    assert_eq!(game.token.len(), 36);
}

#[test]
fn creation_with_given_token_keeps_it() {
    let teams = vec![team(1, "A"), team(2, "B")];
    let (game, _) = success(new_with_token(3, 5, false, 30, &teams, 0, "tok".to_owned()));
    assert_eq!(game.token, "tok");
    assert_eq!(game.id, 3);
}

#[test]
fn two_games_get_different_tokens() {
    let teams = vec![team(1, "A"), team(2, "B")];
    let (a, _) = success(new(-1, 5, false, 30, &teams, 0));
    let (b, _) = success(new(-1, 5, false, 30, &teams, 0));
    assert_ne!(a.token, b.token);
}

#[test]
fn creation_rejects_bad_input_in_order() {
    let one = vec![team(1, "A")];
    let two = vec![team(1, "A"), team(2, "B")];
    assert_eq!(code_of(&new(-1, 10, false, 60, &one, 0)), 2);
    assert_eq!(code_of(&new(-1, 0, false, 0, &one, 0)), 2);
    assert_eq!(code_of(&new(-1, 10, false, 0, &two, 0)), 4);
    assert_eq!(code_of(&new(-1, 10, false, 1001, &two, 0)), 4);
    assert_eq!(code_of(&new(-1, 0, false, 60, &two, 0)), 4);
    assert_eq!(code_of(&new(-1, 501, false, 60, &two, 0)), 4);
    assert!(new(-1, 1, false, 1, &two, 0).is_ok());
    assert!(new(-1, 500, false, 1000, &two, 0).is_ok());
}

#[test]
fn validators_report_their_kind() {
    assert_eq!(code_of(&validate_team_count(&vec![])), 2);
    assert!(validate_team_count(&vec![team(1, "A"), team(2, "B")]).is_ok());
    assert_eq!(code_of(&validate_round_time(-5)), 4);
    assert!(validate_round_time(1000).is_ok());
    assert_eq!(code_of(&validate_word_count(501)), 4);
    assert!(validate_word_count(1).is_ok());
    let game = active_game(10, false, 0);
    assert_eq!(code_of(&validate_token(&game, "wrong")), 8);
    assert!(validate_token(&game, "secret").is_ok());
    assert!(validate_active(&game).is_ok());
    let ended = Game { state: GameState::Ended, winner_id: Some(1), ..active_game(10, false, 0) };
    assert_eq!(code_of(&validate_active(&ended)), 5);
    assert_eq!(code_of(&validate_expired(&game, game.expired_at)), 6);
    assert!(validate_expired(&game, game.expired_at - 1).is_ok());
}

#[test]
fn turn_resolves_modulo_team_count() {
    assert_eq!(current_team_index(5, 2), 1);
    assert_eq!(current_team_index(4, 2), 0);
    assert_eq!(current_team_index(7, 3), 1);
    let trws = vec![(team_result(1, 10, 0), vec![]), (team_result(2, 20, 1), vec![])];
    let game = active_game(10, false, 5);
    assert_eq!(get_current_team_result(&game, &trws), team_result(2, 20, 1));
}

#[test]
fn smaller_batch_advances_turn() {
    let game = active_game(6, false, 0);
    let trws = vec![(team_result(1, 10, 0), vec![]), (team_result(2, 20, 1), vec![])];
    let batch = vec![(501, true), (502, false)];
    let (next, wrs) = success(complete_round(&game, &trws, &batch, "secret", 2_000));
    assert_eq!(next.state, GameState::Active);
    assert_eq!(next.turn, 1);
    assert_eq!(next.winner_id, None);
    assert_eq!(next.token, "secret");
    assert_eq!(next.word_count, 6);
    assert_eq!(wrs.len(), 2);
    assert_eq!(wrs[0], WordResult { id: -1, result: true, order: 0, word_id: 501, team_result_id: 1 });
    assert_eq!(wrs[1], WordResult { id: -1, result: false, order: 1, word_id: 502, team_result_id: 1 });
}

#[test]
fn batch_orders_restart_at_zero_for_acting_team() {
    let game = active_game(10, false, 3);
    let trws = vec![
        (team_result(1, 10, 0), words(1, &[true, true])),
        (team_result(2, 20, 1), words(2, &[false])),
    ];
    let (next, wrs) = success(complete_round(&game, &trws, &vec![(9, true)], "secret", 2_000));
    assert_eq!(next.turn, 4);
    assert_eq!(wrs, vec![WordResult { id: -1, result: true, order: 0, word_id: 9, team_result_id: 2 }]);
}

#[test]
fn final_batch_ends_game_with_winner() {
    let game = active_game(4, false, 1);
    let trws = vec![
        (team_result(1, 10, 0), words(1, &[true, false])),
        (team_result(2, 20, 1), vec![]),
    ];
    let batch = vec![(31, true), (32, true)];
    let (next, wrs) = success(complete_round(&game, &trws, &batch, "secret", 2_000));
    assert_eq!(next.state, GameState::Ended);
    assert_eq!(next.winner_id, Some(2));
    assert_eq!(next.turn, 1);
    assert_eq!(wrs.len(), 2);
    assert!(wrs.iter().all(|w| w.team_result_id == 2));
}

#[test]
fn tie_goes_to_first_team() {
    let game = active_game(4, false, 1);
    let trws = vec![
        (team_result(1, 10, 0), words(1, &[true, true])),
        (team_result(2, 20, 1), vec![]),
    ];
    let batch = vec![(31, true), (32, true)];
    let (next, _) = success(complete_round(&game, &trws, &batch, "secret", 2_000));
    assert_eq!(next.winner_id, Some(1));
}

#[test]
fn tie_among_three_goes_to_first_leader() {
    let game = active_game(5, true, 0);
    let trws = vec![
        (team_result(1, 10, 0), words(1, &[false])),
        (team_result(2, 20, 1), words(2, &[true])),
        (team_result(3, 30, 2), words(3, &[true])),
    ];
    let batch = vec![(40, true), (41, false)];
    let (next, _) = success(complete_round(&game, &trws, &batch, "secret", 2_000));
    assert_eq!(next.winner_id, Some(2));
}

#[test]
fn expired_game_rejects_round_even_with_right_token() {
    let game = active_game(4, false, 0);
    let trws = vec![(team_result(1, 10, 0), vec![]), (team_result(2, 20, 1), vec![])];
    let r = complete_round(&game, &trws, &vec![(1, true)], "secret", game.expired_at);
    assert_eq!(code_of(&r), 6);
    let r = complete_round(&game, &trws, &vec![(1, true)], "secret", game.expired_at + 1);
    assert_eq!(code_of(&r), 6);
    assert!(complete_round(&game, &trws, &vec![(1, true)], "secret", game.expired_at - 1).is_ok());
}

#[test]
fn too_many_words_is_rejected() {
    let game = active_game(3, false, 0);
    let trws = vec![
        (team_result(1, 10, 0), words(1, &[true])),
        (team_result(2, 20, 1), words(2, &[true])),
    ];
    let r = complete_round(&game, &trws, &vec![(1, true), (2, true)], "secret", 2_000);
    assert_eq!(code_of(&r), 7);
    assert!(r.is_err());
}

#[test]
fn checks_run_in_order() {
    let ended = Game { state: GameState::Ended, winner_id: Some(1), ..active_game(1, false, 0) };
    let trws = vec![(team_result(1, 10, 0), vec![]), (team_result(2, 20, 1), vec![])];
    let late = ended.expired_at + 5;
    let batch = vec![(1, true), (2, true)];
    assert_eq!(code_of(&complete_round(&ended, &trws, &batch, "wrong", late)), 8);
    assert_eq!(code_of(&complete_round(&ended, &trws, &batch, "secret", late)), 5);
    let active = active_game(1, false, 0);
    assert_eq!(code_of(&complete_round(&active, &trws, &batch, "secret", late)), 6);
    assert_eq!(code_of(&complete_round(&active, &trws, &batch, "secret", 2_000)), 7);
}

#[test]
fn stale_resubmission_is_rejected() {
    let snapshot = active_game(10, false, 0);
    let trws = vec![(team_result(1, 10, 0), vec![]), (team_result(2, 20, 1), vec![])];
    let batch = vec![(1, true)];
    let (stored, _) = success(complete_round(&snapshot, &trws, &batch, "secret", 2_000));
    assert!(validate_snapshot(&snapshot, &snapshot).is_ok());
    assert_eq!(code_of(&validate_snapshot(&stored, &snapshot)), 5);
    assert!(validate_snapshot(&stored, &stored).is_ok());
}

#[test]
fn ended_game_refuses_further_rounds() {
    let game = active_game(1, false, 0);
    let trws = vec![(team_result(1, 10, 0), vec![]), (team_result(2, 20, 1), vec![])];
    let (ended, wrs) = success(complete_round(&game, &trws, &vec![(1, true)], "secret", 2_000));
    assert_eq!(ended.state, GameState::Ended);
    let trws_after = vec![(team_result(1, 10, 0), wrs), (team_result(2, 20, 1), vec![])];
    let again = complete_round(&ended, &trws_after, &vec![], "secret", 2_000);
    assert_eq!(code_of(&again), 5);
    assert_eq!(code_of(&validate_snapshot(&ended, &game)), 5);
}

#[test]
fn error_message_names_the_kind() {
    let e = VortoError::new(VortoErrorCode::TeamSize, "Should be at least 2 teams".to_owned());
    assert_eq!(e.code, 2);
    assert_eq!(e.message, "[TeamSize] Should be at least 2 teams");
    assert_eq!(VortoErrorCode::Infrastructure.value(), 1000);
    assert_eq!(VortoErrorCode::NotFound.name(), "NotFound");
}

#[test]
fn result_accessors() {
    let ok: VortoResult<i32> = VortoResult::Success(4);
    assert!(ok.is_ok());
    assert!(!ok.is_err());
    assert_eq!(*ok.unwrap(), 4);
    assert_eq!(*ok.expect("present"), 4);
    let err: VortoResult<i32> =
        VortoResult::Failure(VortoError::new(VortoErrorCode::NotFound, "x".to_owned()));
    assert!(err.is_err());
    assert!(!err.is_ok());
}
