use vorto::enums::GameState;
use vorto::error::VortoResult;
use vorto::game::Game;
use vorto::view::{game_view, GameView, GameViewRow, TeamResultRow, WordResultRow};

fn game(penalty: bool, winner_id: Option<i32>) -> Game {
    Game {
        id: 3,
        state: if winner_id.is_some() { GameState::Ended } else { GameState::Active },
        word_count: 5,
        penalty,
        round_time: 60,
        winner_id,
        turn: 2,
        token: "tok".to_owned(),
        created_at: 10,
        expired_at: 20,
    }
}

fn tr(id: i32, team_id: i32, name: &str) -> TeamResultRow {
    TeamResultRow { id, team_id, game_id: 3, order: id - 1, team_name: name.to_owned() }
}

fn wr(id: i32, team_result_id: i32, result: bool, order: i32) -> WordResultRow {
    WordResultRow {
        id,
        result,
        order,
        word_id: 100 + id,
        team_result_id,
        word_body: format!("word{}", id),
    }
}

fn row(g: &Game, t: TeamResultRow, w: Option<WordResultRow>) -> GameViewRow {
    GameViewRow {
        game: g.clone(),
        team_result: t,
        word_result: w,
        winner_team_result: None,
        winner_word_result: None,
    }
}

fn view_of(rows: &Vec<GameViewRow>) -> GameView {
    match game_view(rows) {
        VortoResult::Success(v) => v,
        VortoResult::Failure(e) => panic!("unexpected failure: {}", e.message),
    }
}

#[test]
fn empty_rows_mean_game_not_found() {
    match game_view(&vec![]) {
        VortoResult::Failure(e) => {
            assert_eq!(e.code, 3);
            assert_eq!(e.message, "[NotFound] Game not found");
        }
        VortoResult::Success(_) => panic!("expected NotFound"),
    }
}

#[test]
fn ranked_by_score_with_penalty() {
    let g = game(true, None);
    let rows = vec![
        row(&g, tr(1, 10, "A"), Some(wr(1, 1, true, 0))),
        row(&g, tr(1, 10, "A"), Some(wr(2, 1, false, 1))),
        row(&g, tr(1, 10, "A"), Some(wr(3, 1, true, 2))),
        row(&g, tr(2, 20, "B"), Some(wr(4, 2, true, 0))),
        row(&g, tr(2, 20, "B"), Some(wr(5, 2, true, 1))),
    ];
    let v = view_of(&rows);
    assert_eq!(v.team_results.len(), 2);
    assert_eq!(v.team_results[0].team.name, "B");
    assert_eq!(v.team_results[0].score, 2);
    assert_eq!(v.team_results[1].team.name, "A");
    assert_eq!(v.team_results[1].score, 1);
    assert!(v.winner.is_none());
}

#[test]
fn game_fields_come_from_rows() {
    let g = game(false, None);
    let v = view_of(&vec![row(&g, tr(1, 10, "A"), None)]);
    assert_eq!(v.id, 3);
    assert!(!v.penalty);
    assert_eq!(v.state, GameState::Active);
    assert_eq!(v.token, "tok");
    assert_eq!(v.turn, 2);
    assert_eq!(v.word_count, 5);
    assert_eq!(v.round_time, 60);
    assert_eq!(v.created_at, 10);
    assert_eq!(v.expired_at, 20);
    assert_eq!(v.team_results.len(), 1);
    assert_eq!(v.team_results[0].id, 1);
    assert_eq!(v.team_results[0].team.id, 10);
    assert_eq!(v.team_results[0].score, 0);
    assert!(v.team_results[0].word_results.is_empty());
}

#[test]
fn word_results_sorted_by_order_and_deduplicated() {
    let g = game(false, None);
    let rows = vec![
        row(&g, tr(1, 10, "A"), Some(wr(7, 1, true, 2))),
        row(&g, tr(1, 10, "A"), Some(wr(5, 1, false, 0))),
        row(&g, tr(1, 10, "A"), Some(wr(7, 1, true, 2))),
        row(&g, tr(1, 10, "A"), Some(wr(6, 1, true, 1))),
    ];
    let v = view_of(&rows);
    let t = &v.team_results[0];
    let orders: Vec<i32> = t.word_results.iter().map(|w| w.order).collect();
    assert_eq!(orders, vec![0, 1, 2]);
    assert_eq!(t.word_results[0].word.id, 105);
    assert_eq!(t.word_results[0].word.body, "word5");
    assert!(!t.word_results[0].result);
    assert_eq!(t.score, 2);
}

#[test]
fn equal_scores_keep_first_appearance() {
    let g = game(false, None);
    let rows = vec![
        row(&g, tr(2, 20, "B"), Some(wr(1, 2, true, 0))),
        row(&g, tr(1, 10, "A"), Some(wr(2, 1, true, 0))),
        row(&g, tr(3, 30, "C"), Some(wr(3, 3, true, 0))),
        row(&g, tr(3, 30, "C"), Some(wr(4, 3, true, 1))),
    ];
    let v = view_of(&rows);
    let names: Vec<String> = v.team_results.iter().map(|t| t.team.name.clone()).collect();
    assert_eq!(names, vec!["C".to_owned(), "B".to_owned(), "A".to_owned()]);
}

#[test]
fn winner_is_built_from_its_own_chain() {
    let g = game(false, Some(2));
    let mut rows = Vec::new();
    for t in [tr(1, 10, "A"), tr(2, 20, "B")] {
        for w in [wr(1, 2, true, 1), wr(2, 2, true, 0)] {
            let own = if t.id == 2 { Some(wr(w.id, 2, w.result, w.order)) } else { None };
            rows.push(GameViewRow {
                game: g.clone(),
                team_result: t.clone(),
                word_result: own,
                winner_team_result: Some(tr(2, 20, "B")),
                winner_word_result: Some(w),
            });
        }
    }
    let v = view_of(&rows);
    let winner = v.winner.expect("winner");
    assert_eq!(winner.id, 2);
    assert_eq!(winner.team.id, 20);
    assert_eq!(winner.team.name, "B");
    assert_eq!(winner.score, 2);
    let orders: Vec<i32> = winner.word_results.iter().map(|w| w.order).collect();
    assert_eq!(orders, vec![0, 1]);
    assert_eq!(v.team_results.len(), 2);
    assert_eq!(v.team_results[0].id, 2);
    assert_eq!(v.team_results[0].word_results.len(), 2);
    assert_eq!(v.team_results[1].id, 1);
    assert_eq!(v.team_results[1].word_results.len(), 0);
}

#[test]
fn word_of_unknown_team_result_is_dropped() {
    let g = game(false, None);
    let rows = vec![row(&g, tr(1, 10, "A"), Some(wr(1, 9, true, 0)))];
    let v = view_of(&rows);
    assert_eq!(v.team_results[0].word_results.len(), 0);
    assert_eq!(v.team_results[0].score, 0);
}
