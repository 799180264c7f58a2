use vorto::enums::{GameState, WordDefinitionStatus, WordLoadStatus, WordStatus};
use vorto::error::VortoResult;
use vorto::game::{Game, EXPIRY_MICROS};
use vorto::game_service::{assign_game_id, play_round};
use vorto::requests::{CompleteRoundRequest, WordResultsDTO};
use vorto::team_result::TeamResult;
use vorto::team_rows::{group_team_results, TeamResultWordRow};
use vorto::word_result::WordResult;

fn game() -> Game {
    Game {
        id: 1,
        state: GameState::Active,
        word_count: 10,
        penalty: false,
        round_time: 60,
        winner_id: None,
        turn: 0,
        token: "t".to_owned(),
        created_at: 0,
        expired_at: EXPIRY_MICROS,
    }
}

fn tr(id: i32) -> TeamResult {
    TeamResult { id, team_id: id * 10, game_id: 1, order: id - 1 }
}

fn wr(id: i32, team_result_id: i32, order: i32) -> WordResult {
    WordResult { id, result: true, order, word_id: 100 + id, team_result_id }
}

#[test]
fn repeated_words_count_once() {
    let trws = vec![(tr(1), vec![]), (tr(2), vec![])];
    let req = CompleteRoundRequest {
        id: 1,
        token: "t".to_owned(),
        word_results: vec![
            WordResultsDTO { result: true, word_id: 4 },
            WordResultsDTO { result: false, word_id: 5 },
            WordResultsDTO { result: false, word_id: 4 },
        ],
    };
    match play_round(&game(), &trws, &req, 10) {
        VortoResult::Success((g, wrs)) => {
            assert_eq!(g.turn, 1);
            assert_eq!(wrs.len(), 2);
            assert_eq!((wrs[0].word_id, wrs[0].result, wrs[0].order), (4, true, 0));
            assert_eq!((wrs[1].word_id, wrs[1].result, wrs[1].order), (5, false, 1));
        }
        VortoResult::Failure(e) => panic!("unexpected failure: {}", e.message),
    }
    let wrong = CompleteRoundRequest { token: "x".to_owned(), ..req };
    assert!(play_round(&game(), &trws, &wrong, 10).is_err());
}

#[test]
fn stored_game_id_is_assigned() {
    let mut trs = vec![TeamResult { id: -1, team_id: 3, game_id: -1, order: 0 }, TeamResult { id: -1, team_id: 4, game_id: -1, order: 1 }];
    assign_game_id(&mut trs, 42);
    assert_eq!(trs[0], TeamResult { id: -1, team_id: 3, game_id: 42, order: 0 });
    assert_eq!(trs[1], TeamResult { id: -1, team_id: 4, game_id: 42, order: 1 });
}

#[test]
fn rows_group_by_team_result_in_order() {
    let rows = vec![
        TeamResultWordRow { team_result: tr(2), word_result: Some(wr(1, 2, 0)) },
        TeamResultWordRow { team_result: tr(1), word_result: None },
        TeamResultWordRow { team_result: tr(2), word_result: Some(wr(2, 2, 1)) },
        TeamResultWordRow { team_result: tr(3), word_result: Some(wr(3, 3, 0)) },
    ];
    let groups = group_team_results(&rows);
    assert_eq!(groups.len(), 3);
    assert_eq!(groups[0].0, tr(2));
    assert_eq!(groups[0].1, vec![wr(1, 2, 0), wr(2, 2, 1)]);
    assert_eq!(groups[1].0, tr(1));
    assert!(groups[1].1.is_empty());
    assert_eq!(groups[2].1, vec![wr(3, 3, 0)]);
    assert!(group_team_results(&vec![]).is_empty());
}

#[test]
fn state_texts_round_trip() {
    for s in [GameState::Active, GameState::Ended] {
        assert_eq!(GameState::from_text(s.as_str()), Some(s));
    }
    for s in [WordStatus::Active, WordStatus::NotActive, WordStatus::Draft] {
        assert_eq!(WordStatus::from_text(s.as_str()), Some(s));
    }
    for s in [WordLoadStatus::NotLoaded, WordLoadStatus::Loaded, WordLoadStatus::LoadedWithFail] {
        assert_eq!(WordLoadStatus::from_text(s.as_str()), Some(s));
    }
    for s in [WordDefinitionStatus::Active, WordDefinitionStatus::NotActive] {
        assert_eq!(WordDefinitionStatus::from_text(s.as_str()), Some(s));
    }
    assert_eq!(GameState::Ended.as_str(), "ended");
    assert_eq!(WordLoadStatus::LoadedWithFail.as_str(), "loaded_with_fail");
    assert_eq!(GameState::from_text("Active"), None);
    assert_eq!(WordStatus::from_text(""), None);
}
