use vstd::prelude::*;

use crate::enums::GameState;
use crate::error::{VortoError, VortoErrorCode, VortoResult};
use crate::game::{calc_score, score_of, Game};

verus! {

// ----- rows -----

/// The team-result side of a joined row: the team result and its team's name.
#[derive(Debug, Clone)]
pub struct TeamResultRow {
    pub id: i32,
    pub team_id: i32,
    pub game_id: i32,
    pub order: i32,
    pub team_name: String,
}

/// The word-result side of a joined row: the word result and its word's text.
#[derive(Debug, Clone)]
pub struct WordResultRow {
    pub id: i32,
    pub result: bool,
    pub order: i32,
    pub word_id: i32,
    pub team_result_id: i32,
    pub word_body: String,
}

/// One row of the join of a game with its team results and their word
/// results, beside the same chain for the game's winner. The word-result
/// side is absent for a team without words; the winner's side is absent
/// while the game has no winner.
#[derive(Debug, Clone)]
pub struct GameViewRow {
    pub game: Game,
    pub team_result: TeamResultRow,
    pub word_result: Option<WordResultRow>,
    pub winner_team_result: Option<TeamResultRow>,
    pub winner_word_result: Option<WordResultRow>,
}

// ----- views -----

#[derive(Debug, Clone)]
pub struct TeamView {
    pub id: i32,
    pub name: String,
}

#[derive(Debug, Clone)]
pub struct GameWordView {
    pub id: i32,
    pub body: String,
}

#[derive(Debug, Clone)]
pub struct GameWordResultView {
    pub result: bool,
    pub order: i32,
    pub word: GameWordView,
}

#[derive(Debug, Clone)]
pub struct GameTeamResultView {
    pub id: i32,
    pub score: i32,
    pub team: TeamView,
    pub word_results: Vec<GameWordResultView>,
}

/// A game with its teams ranked by score and each team's words in order.
#[derive(Debug, Clone)]
pub struct GameView {
    pub id: i32,
    pub penalty: bool,
    pub state: GameState,
    pub token: String,
    pub turn: i32,
    pub word_count: i32,
    pub round_time: i32,
    pub team_results: Vec<GameTeamResultView>,
    pub winner: Option<GameTeamResultView>,
    pub created_at: i64,
    pub expired_at: i64,
}

// ----- models -----

pub struct WordResultModel {
    pub result: bool,
    pub order: i32,
    pub word_id: i32,
    pub body: Seq<char>,
}

pub struct TeamResultModel {
    pub id: i32,
    pub score: int,
    pub team_id: i32,
    pub team_name: Seq<char>,
    pub word_results: Seq<WordResultModel>,
}

pub struct GameViewModel {
    pub id: i32,
    pub penalty: bool,
    pub state: GameState,
    pub token: Seq<char>,
    pub turn: i32,
    pub word_count: i32,
    pub round_time: i32,
    pub team_results: Seq<TeamResultModel>,
    pub winner: Option<TeamResultModel>,
    pub created_at: i64,
    pub expired_at: i64,
}

impl View for GameWordResultView {
    type V = WordResultModel;

    open spec fn view(&self) -> WordResultModel {
        WordResultModel {
            result: self.result,
            order: self.order,
            word_id: self.word.id,
            body: self.word.body@,
        }
    }
}

pub open spec fn word_models(v: Seq<GameWordResultView>) -> Seq<WordResultModel> {
    v.map_values(|w: GameWordResultView| w@)
}

impl View for GameTeamResultView {
    type V = TeamResultModel;

    open spec fn view(&self) -> TeamResultModel {
        TeamResultModel {
            id: self.id,
            score: self.score as int,
            team_id: self.team.id,
            team_name: self.team.name@,
            word_results: word_models(self.word_results@),
        }
    }
}

pub open spec fn team_models(v: Seq<GameTeamResultView>) -> Seq<TeamResultModel> {
    v.map_values(|t: GameTeamResultView| t@)
}

impl View for GameView {
    type V = GameViewModel;

    open spec fn view(&self) -> GameViewModel {
        GameViewModel {
            id: self.id,
            penalty: self.penalty,
            state: self.state,
            token: self.token@,
            turn: self.turn,
            word_count: self.word_count,
            round_time: self.round_time,
            team_results: team_models(self.team_results@),
            winner: match self.winner {
                Some(w) => Some(w@),
                None => None,
            },
            created_at: self.created_at,
            expired_at: self.expired_at,
        }
    }
}

// ----- grouping the rows -----

/// Rows grouped by team result: for each distinct team result, in the order
/// of first appearance, the row that introduced it and the rows of its
/// distinct word results; and the same for the winner.
pub struct RowGroups {
    pub teams: Seq<usize>,
    pub team_words: Seq<Seq<usize>>,
    pub winner: Option<usize>,
    pub winner_words: Seq<usize>,
}

/// The word result on one side of a row: the team's own, or the winner's.
pub open spec fn side_word(row: GameViewRow, winner_side: bool) -> Option<WordResultRow> {
    if winner_side {
        row.winner_word_result
    } else {
        row.word_result
    }
}

/// The first position in `teams` whose row holds team result `id`, or -1.
pub open spec fn team_pos(rows: Seq<GameViewRow>, teams: Seq<usize>, id: i32) -> int
    decreases teams.len(),
{
    if teams.len() == 0 {
        -1
    } else {
        let p = team_pos(rows, teams.drop_last(), id);
        if p >= 0 {
            p
        } else if rows[teams.last() as int].team_result.id == id {
            teams.len() - 1
        } else {
            -1
        }
    }
}

/// Whether one of the rows `idxs` holds, on the given side, word result `id`.
pub open spec fn has_word(rows: Seq<GameViewRow>, idxs: Seq<usize>, id: i32, winner_side: bool) -> bool {
    exists|j: int|
        0 <= j < idxs.len() && #[trigger] side_word(rows[idxs[j] as int], winner_side) is Some
            && side_word(rows[idxs[j] as int], winner_side)->Some_0.id == id
}

/// `idxs` with row `k` added, unless a row of `idxs` already holds the same word result.
pub open spec fn add_word(
    rows: Seq<GameViewRow>,
    idxs: Seq<usize>,
    k: usize,
    winner_side: bool,
) -> Seq<usize> {
    match side_word(rows[k as int], winner_side) {
        Some(w) => if has_word(rows, idxs, w.id, winner_side) {
            idxs
        } else {
            idxs.push(k)
        },
        None => idxs,
    }
}

/// The groups after taking in row `k`.
pub open spec fn group_step(rows: Seq<GameViewRow>, g: RowGroups, k: usize) -> RowGroups {
    let row = rows[k as int];
    let winner = if g.winner is None && row.winner_team_result is Some {
        Some(k)
    } else {
        g.winner
    };
    let winner_words = add_word(rows, g.winner_words, k, true);
    let is_new = team_pos(rows, g.teams, row.team_result.id) < 0;
    let teams = if is_new {
        g.teams.push(k)
    } else {
        g.teams
    };
    let team_words = if is_new {
        g.team_words.push(Seq::<usize>::empty())
    } else {
        g.team_words
    };
    let team_words = match row.word_result {
        Some(w) => {
            let p = team_pos(rows, teams, w.team_result_id);
            if p >= 0 {
                team_words.update(p, add_word(rows, team_words[p], k, false))
            } else {
                team_words
            }
        },
        None => team_words,
    };
    RowGroups { teams, team_words, winner, winner_words }
}

/// The groups of the first `n` rows.
pub open spec fn group_rows(rows: Seq<GameViewRow>, n: int) -> RowGroups
    decreases n,
{
    if n <= 0 {
        RowGroups {
            teams: Seq::empty(),
            team_words: Seq::empty(),
            winner: None,
            winner_words: Seq::empty(),
        }
    } else {
        group_step(rows, group_rows(rows, n - 1), (n - 1) as usize)
    }
}

/// Every row index in the groups is below `n`, every team has a word list,
/// the winner's row has a winner side, and every listed row holds a word
/// result on its side.
pub open spec fn groups_wf(rows: Seq<GameViewRow>, g: RowGroups, n: int) -> bool {
    &&& g.team_words.len() == g.teams.len()
    &&& forall|p: int| 0 <= p < g.teams.len() ==> #[trigger] g.teams[p] < n
    &&& forall|p: int, j: int|
        0 <= p < g.team_words.len() && 0 <= j < g.team_words[p].len() ==> {
            &&& #[trigger] g.team_words[p][j] < n
            &&& rows[g.team_words[p][j] as int].word_result is Some
        }
    &&& (g.winner is Some ==> g.winner->Some_0 < n && rows[g.winner->Some_0 as int].winner_team_result is Some)
    &&& forall|p: int| 0 <= p < g.team_words.len() ==> #[trigger] g.team_words[p].len() <= n
    &&& g.winner_words.len() <= n
    &&& forall|j: int|
        0 <= j < g.winner_words.len() ==> {
            &&& #[trigger] g.winner_words[j] < n
            &&& rows[g.winner_words[j] as int].winner_word_result is Some
        }
}

proof fn lemma_team_pos(rows: Seq<GameViewRow>, teams: Seq<usize>, id: i32)
    requires
        forall|p: int| 0 <= p < teams.len() ==> #[trigger] teams[p] < rows.len(),
    ensures
        team_pos(rows, teams, id) == -1 <==> forall|q: int|
            0 <= q < teams.len() ==> rows[#[trigger] teams[q] as int].team_result.id != id,
        team_pos(rows, teams, id) >= 0 ==> {
            &&& team_pos(rows, teams, id) < teams.len()
            &&& rows[teams[team_pos(rows, teams, id)] as int].team_result.id == id
            &&& forall|q: int|
                0 <= q < team_pos(rows, teams, id) ==> rows[#[trigger] teams[q] as int].team_result.id
                    != id
        },
        team_pos(rows, teams, id) >= -1,
    decreases teams.len(),
{
    if teams.len() > 0 {
        let init = teams.drop_last();
        assert forall|q: int| 0 <= q < init.len() implies #[trigger] init[q] == teams[q] by {}
        assert forall|p: int| 0 <= p < init.len() implies #[trigger] init[p] < rows.len() by {
            assert(init[p] == teams[p]);
        }
        lemma_team_pos(rows, init, id);
        let p = team_pos(rows, init, id);
        let last = teams.len() - 1;
        if p >= 0 {
            assert forall|q: int| 0 <= q < p implies rows[#[trigger] teams[q] as int].team_result.id
                != id by {
                assert(init[q] == teams[q]);
            }
            assert(init[p] == teams[p]);
        } else {
            assert forall|q: int| 0 <= q < last implies rows[#[trigger] teams[q] as int].team_result.id
                != id by {
                assert(init[q] == teams[q]);
            }
            if rows[teams[last] as int].team_result.id != id {
                assert forall|q: int| 0 <= q < teams.len() implies rows[#[trigger] teams[
                    q
                ] as int].team_result.id != id by {
                    if q < last {
                        assert(init[q] == teams[q]);
                    }
                }
            }
        }
    }
}

proof fn lemma_groups_wf(rows: Seq<GameViewRow>, n: int)
    requires
        0 <= n <= rows.len(),
    ensures
        groups_wf(rows, group_rows(rows, n), n),
    decreases n,
{
    if n > 0 {
        lemma_groups_wf(rows, n - 1);
        let g = group_rows(rows, n - 1);
        let k = (n - 1) as usize;
        let row = rows[k as int];
        let is_new = team_pos(rows, g.teams, row.team_result.id) < 0;
        let teams = if is_new {
            g.teams.push(k)
        } else {
            g.teams
        };
        let team_words = if is_new {
            g.team_words.push(Seq::<usize>::empty())
        } else {
            g.team_words
        };
        assert(forall|p: int| 0 <= p < teams.len() ==> #[trigger] teams[p] < n);
        assert forall|p: int, j: int|
            0 <= p < team_words.len() && 0 <= j < team_words[p].len() implies {
            &&& #[trigger] team_words[p][j] < n
            &&& rows[team_words[p][j] as int].word_result is Some
        } by {
            if p < g.team_words.len() {
                assert(team_words[p] == g.team_words[p]);
            }
        }
        match row.word_result {
            Some(w) => {
                lemma_team_pos(rows, teams, w.team_result_id);
            },
            None => {},
        }
        let gn = group_rows(rows, n);
        assert forall|p: int| 0 <= p < gn.team_words.len() implies #[trigger] gn.team_words[p].len()
            <= n by {
            if p < g.team_words.len() {
                assert(team_words[p] == g.team_words[p]);
            }
        }
        assert forall|p: int, j: int|
            0 <= p < gn.team_words.len() && 0 <= j < gn.team_words[p].len() implies {
            &&& #[trigger] gn.team_words[p][j] < n
            &&& rows[gn.team_words[p][j] as int].word_result is Some
        } by {
            match row.word_result {
                Some(w) => {
                    let q = team_pos(rows, teams, w.team_result_id);
                    if q >= 0 && p == q {
                        if j < team_words[p].len() {
                            assert(gn.team_words[p][j] == team_words[p][j]);
                        }
                    } else {
                        assert(gn.team_words[p] == team_words[p]);
                    }
                },
                None => {},
            }
        }
    }
}

/// The executable form of `RowGroups`.
pub struct Groups {
    pub teams: Vec<usize>,
    pub team_words: Vec<Vec<usize>>,
    pub winner: Option<usize>,
    pub winner_words: Vec<usize>,
}

impl View for Groups {
    type V = RowGroups;

    open spec fn view(&self) -> RowGroups {
        RowGroups {
            teams: self.teams@,
            team_words: self.team_words@.map_values(|v: Vec<usize>| v@),
            winner: self.winner,
            winner_words: self.winner_words@,
        }
    }
}

/// The word result on one side of a row, by its id.
fn side_word_id(row: &GameViewRow, winner_side: bool) -> (r: Option<i32>)
    ensures
        r is Some <==> side_word(*row, winner_side) is Some,
        r is Some ==> r->Some_0 == side_word(*row, winner_side)->Some_0.id,
{
    let w = if winner_side {
        &row.winner_word_result
    } else {
        &row.word_result
    };
    match w {
        Some(w) => Some(w.id),
        None => None,
    }
}

/// The first position in `teams` whose row holds team result `id`.
fn find_team(rows: &Vec<GameViewRow>, teams: &Vec<usize>, id: i32) -> (r: Option<usize>)
    requires
        forall|p: int| 0 <= p < teams@.len() ==> #[trigger] teams@[p] < rows@.len(),
    ensures
        r is None <==> team_pos(rows@, teams@, id) < 0,
        r is Some ==> r->Some_0 as int == team_pos(rows@, teams@, id),
        r is Some ==> r->Some_0 < teams@.len(),
{
    proof {
        lemma_team_pos(rows@, teams@, id);
    }
    let n = teams.len();
    for i in 0..n
        invariant
            n == teams@.len(),
            forall|p: int| 0 <= p < teams@.len() ==> #[trigger] teams@[p] < rows@.len(),
            forall|q: int| 0 <= q < i ==> rows@[#[trigger] teams@[q] as int].team_result.id != id,
    {
        if rows[teams[i]].team_result.id == id {
            proof {
                lemma_team_pos(rows@, teams@, id);
            }
            return Some(i);
        }
    }
    proof {
        lemma_team_pos(rows@, teams@, id);
    }
    None
}

/// Whether one of the rows `idxs` holds, on the given side, word result `id`.
fn contains_word(rows: &Vec<GameViewRow>, idxs: &Vec<usize>, id: i32, winner_side: bool) -> (r: bool)
    requires
        forall|j: int| 0 <= j < idxs@.len() ==> #[trigger] idxs@[j] < rows@.len(),
    ensures
        r == has_word(rows@, idxs@, id, winner_side),
{
    let n = idxs.len();
    for i in 0..n
        invariant
            n == idxs@.len(),
            forall|j: int| 0 <= j < idxs@.len() ==> #[trigger] idxs@[j] < rows@.len(),
            forall|j: int|
                0 <= j < i ==> !(#[trigger] side_word(rows@[idxs@[j] as int], winner_side) is Some
                    && side_word(rows@[idxs@[j] as int], winner_side)->Some_0.id == id),
    {
        match side_word_id(&rows[idxs[i]], winner_side) {
            Some(wid) => {
                if wid == id {
                    return true;
                }
            },
            None => {},
        }
    }
    false
}

/// Adds row `k` to `idxs` unless a row there already holds the same word result.
fn push_word(rows: &Vec<GameViewRow>, idxs: &mut Vec<usize>, k: usize, winner_side: bool)
    requires
        k < rows@.len(),
        forall|j: int| 0 <= j < old(idxs)@.len() ==> #[trigger] old(idxs)@[j] < rows@.len(),
    ensures
        final(idxs)@ == add_word(rows@, old(idxs)@, k, winner_side),
{
    match side_word_id(&rows[k], winner_side) {
        Some(wid) => {
            if !contains_word(rows, idxs, wid, winner_side) {
                idxs.push(k);
            }
        },
        None => {},
    }
}

/// Groups the rows by team result, and the winner's rows, in one pass.
pub fn group_game_rows(rows: &Vec<GameViewRow>) -> (r: Groups)
    ensures
        r@ == group_rows(rows@, rows@.len() as int),
{
    let mut g = Groups {
        teams: Vec::new(),
        team_words: Vec::new(),
        winner: None,
        winner_words: Vec::new(),
    };
    proof {
        assert(g@.teams =~= Seq::<usize>::empty());
        assert(g@.team_words =~= Seq::<Seq<usize>>::empty());
        assert(g@.winner_words =~= Seq::<usize>::empty());
        assert(g@ == group_rows(rows@, 0));
    }
    let n = rows.len();
    for k in 0..n
        invariant
            n == rows@.len(),
            g@ == group_rows(rows@, k as int),
    {
        proof {
            lemma_groups_wf(rows@, k as int);
        }
        let ghost g0 = g@;
        let row = &rows[k];
        if g.winner.is_none() && row.winner_team_result.is_some() {
            g.winner = Some(k);
        }
        push_word(rows, &mut g.winner_words, k, true);
        match find_team(rows, &g.teams, row.team_result.id) {
            Some(_) => {},
            None => {
                g.teams.push(k);
                g.team_words.push(Vec::new());
            },
        }
        let ghost teams1 = g.teams@;
        let ghost words1 = g.team_words@.map_values(|v: Vec<usize>| v@);
        proof {
            assert(words1 =~= (if team_pos(rows@, g0.teams, row.team_result.id) < 0 {
                g0.team_words.push(Seq::<usize>::empty())
            } else {
                g0.team_words
            }));
            assert(words1.len() == teams1.len());
            assert forall|p: int| 0 <= p < teams1.len() implies #[trigger] teams1[p] < rows@.len() by {
                if p < g0.teams.len() {
                    assert(teams1[p] == g0.teams[p]);
                }
            }
        }
        match &row.word_result {
            Some(w) => {
                match find_team(rows, &g.teams, w.team_result_id) {
                    Some(p) => {
                        let mut ws: Vec<usize> = Vec::new();
                        proof {
                            assert(words1[p as int] == g.team_words@[p as int]@);
                        }
                        g.team_words.set_and_swap(p, &mut ws);
                        proof {
                            assert(ws@ == words1[p as int]);
                            assert forall|j: int| 0 <= j < ws@.len() implies #[trigger] ws@[j]
                                < rows@.len() by {
                                if p < g0.team_words.len() {
                                    assert(ws@[j] == g0.team_words[p as int][j]);
                                }
                            }
                        }
                        push_word(rows, &mut ws, k, false);
                        let mut empty: Vec<usize> = ws;
                        g.team_words.set_and_swap(p, &mut empty);
                        proof {
                            assert(g.team_words@.map_values(|v: Vec<usize>| v@) =~= words1.update(
                                p as int,
                                add_word(rows@, words1[p as int], k, false),
                            ));
                        }
                    },
                    None => {},
                }
            },
            None => {},
        }
        proof {
            assert(g@ =~= group_step(rows@, g0, k));
        }
    }
    g
}

// ----- ordering -----

/// `s` with `x` placed after every element whose order is not above its own.
pub open spec fn insert_by_order(x: WordResultModel, s: Seq<WordResultModel>) -> Seq<WordResultModel>
    decreases s.len(),
{
    if s.len() == 0 {
        seq![x]
    } else if x.order < s[0].order {
        seq![x] + s
    } else {
        seq![s[0]] + insert_by_order(x, s.drop_first())
    }
}

/// Word results sorted by order, ascending; equal orders keep their places.
pub open spec fn sort_by_order(s: Seq<WordResultModel>) -> Seq<WordResultModel>
    decreases s.len(),
{
    if s.len() == 0 {
        s
    } else {
        insert_by_order(s.last(), sort_by_order(s.drop_last()))
    }
}

/// `s` with `x` placed after every element whose score is not below its own.
pub open spec fn insert_by_score(x: TeamResultModel, s: Seq<TeamResultModel>) -> Seq<TeamResultModel>
    decreases s.len(),
{
    if s.len() == 0 {
        seq![x]
    } else if s[0].score < x.score {
        seq![x] + s
    } else {
        seq![s[0]] + insert_by_score(x, s.drop_first())
    }
}

/// Team results sorted by score, descending; equal scores keep their places.
pub open spec fn sort_by_score(s: Seq<TeamResultModel>) -> Seq<TeamResultModel>
    decreases s.len(),
{
    if s.len() == 0 {
        s
    } else {
        insert_by_score(s.last(), sort_by_score(s.drop_last()))
    }
}

/// Sorts word results by order, keeping equal orders in place.
pub fn sort_word_results(v: Vec<GameWordResultView>) -> (r: Vec<GameWordResultView>)
    ensures
        word_models(r@) == sort_by_order(word_models(v@)),
{
    let ghost vm = word_models(v@);
    let n = v.len();
    let mut rest = v;
    let mut out: Vec<GameWordResultView> = Vec::new();
    proof {
        assert(word_models(out@) =~= vm.take(0));
    }
    for i in 0..n
        invariant
            n == vm.len(),
            vm == word_models(v@),
            rest@ == v@.skip(i as int),
            word_models(out@) == sort_by_order(vm.take(i as int)),
    {
        let x = rest.remove(0);
        let ghost om = word_models(out@);
        proof {
            assert(rest@ =~= v@.skip(i + 1));
            assert(x@ == vm[i as int]);
        }
        let mut pos: usize = 0;
        proof {
            assert(om.take(0) + om.skip(0) =~= om);
            assert(om.take(0) =~= Seq::empty());
            assert(om.skip(0) =~= om);
        }
        while pos < out.len() && !(x.order < out[pos].order)
            invariant
                om == word_models(out@),
                pos <= out@.len(),
                insert_by_order(x@, om) == om.take(pos as int) + insert_by_order(
                    x@,
                    om.skip(pos as int),
                ),
                forall|j: int| 0 <= j < pos ==> !(x@.order < #[trigger] om[j].order),
            decreases out@.len() - pos,
        {
            proof {
                assert(om.skip(pos as int).drop_first() =~= om.skip(pos + 1));
                assert(om.take(pos + 1) =~= om.take(pos as int).push(om[pos as int]));
                assert(om.take(pos as int) + insert_by_order(x@, om.skip(pos as int)) =~= om.take(
                    pos + 1,
                ) + insert_by_order(x@, om.skip(pos + 1)));
            }
            pos = pos + 1;
        }
        out.insert(pos, x);
        proof {
            if pos == om.len() {
                assert(om.skip(pos as int) =~= Seq::<WordResultModel>::empty());
            }
            assert(word_models(out@) =~= om.take(pos as int) + insert_by_order(
                x@,
                om.skip(pos as int),
            ));
            assert(vm.take(i + 1).drop_last() =~= vm.take(i as int));
        }
    }
    proof {
        assert(vm.take(n as int) =~= vm);
    }
    out
}

/// Sorts team results by score, highest first, keeping equal scores in place.
pub fn sort_team_results(v: Vec<GameTeamResultView>) -> (r: Vec<GameTeamResultView>)
    ensures
        team_models(r@) == sort_by_score(team_models(v@)),
{
    let ghost vm = team_models(v@);
    let n = v.len();
    let mut rest = v;
    let mut out: Vec<GameTeamResultView> = Vec::new();
    proof {
        assert(team_models(out@) =~= vm.take(0));
    }
    for i in 0..n
        invariant
            n == vm.len(),
            vm == team_models(v@),
            rest@ == v@.skip(i as int),
            team_models(out@) == sort_by_score(vm.take(i as int)),
    {
        let x = rest.remove(0);
        let ghost om = team_models(out@);
        proof {
            assert(rest@ =~= v@.skip(i + 1));
            assert(x@ == vm[i as int]);
        }
        let mut pos: usize = 0;
        proof {
            assert(om.take(0) + om.skip(0) =~= om);
            assert(om.take(0) =~= Seq::empty());
            assert(om.skip(0) =~= om);
        }
        while pos < out.len() && !(out[pos].score < x.score)
            invariant
                om == team_models(out@),
                pos <= out@.len(),
                insert_by_score(x@, om) == om.take(pos as int) + insert_by_score(
                    x@,
                    om.skip(pos as int),
                ),
            decreases out@.len() - pos,
        {
            proof {
                assert(om.skip(pos as int).drop_first() =~= om.skip(pos + 1));
                assert(om.take(pos + 1) =~= om.take(pos as int).push(om[pos as int]));
                assert(om.take(pos as int) + insert_by_score(x@, om.skip(pos as int)) =~= om.take(
                    pos + 1,
                ) + insert_by_score(x@, om.skip(pos + 1)));
            }
            pos = pos + 1;
        }
        out.insert(pos, x);
        proof {
            if pos == om.len() {
                assert(om.skip(pos as int) =~= Seq::<TeamResultModel>::empty());
            }
            assert(team_models(out@) =~= om.take(pos as int) + insert_by_score(
                x@,
                om.skip(pos as int),
            ));
            assert(vm.take(i + 1).drop_last() =~= vm.take(i as int));
        }
    }
    proof {
        assert(vm.take(n as int) =~= vm);
    }
    out
}

// ----- the scored view -----

pub open spec fn word_model_of(w: WordResultRow) -> WordResultModel {
    WordResultModel { result: w.result, order: w.order, word_id: w.word_id, body: w.word_body@ }
}

/// The word results held, on the given side, by the rows `idxs`.
pub open spec fn side_word_models(rows: Seq<GameViewRow>, idxs: Seq<usize>, winner_side: bool) -> Seq<
    WordResultModel,
> {
    idxs.map_values(|k: usize| word_model_of(side_word(rows[k as int], winner_side)->Some_0))
}

pub open spec fn word_outcomes(ws: Seq<WordResultModel>) -> Seq<bool> {
    ws.map_values(|w: WordResultModel| w.result)
}

/// A team result with its score and its word results in order.
pub open spec fn team_result_model(penalty: bool, tr: TeamResultRow, words: Seq<WordResultModel>) -> TeamResultModel {
    TeamResultModel {
        id: tr.id,
        score: score_of(penalty, word_outcomes(words)),
        team_id: tr.team_id,
        team_name: tr.team_name@,
        word_results: sort_by_order(words),
    }
}

/// The team results of the grouped rows, in the order of first appearance.
pub open spec fn unsorted_team_results(rows: Seq<GameViewRow>, g: RowGroups, penalty: bool) -> Seq<
    TeamResultModel,
> {
    Seq::new(
        g.teams.len(),
        |p: int|
            team_result_model(
                penalty,
                rows[g.teams[p] as int].team_result,
                side_word_models(rows, g.team_words[p], false),
            ),
    )
}

/// The view of a game built from the rows of its join: the game's fields
/// from the first row, its team results ranked by score, and its winner.
pub open spec fn game_view_model(rows: Seq<GameViewRow>) -> GameViewModel {
    let g = group_rows(rows, rows.len() as int);
    let game = rows[0].game;
    GameViewModel {
        id: game.id,
        penalty: game.penalty,
        state: game.state,
        token: game.token@,
        turn: game.turn,
        word_count: game.word_count,
        round_time: game.round_time,
        team_results: sort_by_score(unsorted_team_results(rows, g, game.penalty)),
        winner: match g.winner {
            Some(k) => Some(
                team_result_model(
                    game.penalty,
                    rows[k as int].winner_team_result->Some_0,
                    side_word_models(rows, g.winner_words, true),
                ),
            ),
            None => None,
        },
        created_at: game.created_at,
        expired_at: game.expired_at,
    }
}

/// Builds the view of one team result from its row and the rows of its words.
fn finish_team(
    rows: &Vec<GameViewRow>,
    penalty: bool,
    tr: &TeamResultRow,
    idxs: &Vec<usize>,
    winner_side: bool,
) -> (r: GameTeamResultView)
    requires
        idxs@.len() <= i32::MAX,
        forall|j: int|
            0 <= j < idxs@.len() ==> #[trigger] idxs@[j] < rows@.len() && side_word(
                rows@[idxs@[j] as int],
                winner_side,
            ) is Some,
    ensures
        r@ == team_result_model(penalty, *tr, side_word_models(rows@, idxs@, winner_side)),
{
    let ghost models = side_word_models(rows@, idxs@, winner_side);
    let mut words: Vec<GameWordResultView> = Vec::new();
    let mut results: Vec<bool> = Vec::new();
    let n = idxs.len();
    for j in 0..n
        invariant
            n == idxs@.len(),
            n <= i32::MAX,
            models == side_word_models(rows@, idxs@, winner_side),
            forall|j: int|
                0 <= j < idxs@.len() ==> #[trigger] idxs@[j] < rows@.len() && side_word(
                    rows@[idxs@[j] as int],
                    winner_side,
                ) is Some,
            word_models(words@) =~= models.take(j as int),
            results@ =~= word_outcomes(models.take(j as int)),
    {
        let row = &rows[idxs[j]];
        let side = if winner_side {
            &row.winner_word_result
        } else {
            &row.word_result
        };
        match side {
            Some(w) => {
                words.push(
                    GameWordResultView {
                        result: w.result,
                        order: w.order,
                        word: GameWordView { id: w.word_id, body: w.word_body.clone() },
                    },
                );
                results.push(w.result);
            },
            None => unreached(),
        }
    }
    proof {
        assert(models.take(n as int) =~= models);
    }
    let score = calc_score(penalty, &results);
    GameTeamResultView {
        id: tr.id,
        score,
        team: TeamView { id: tr.team_id, name: tr.team_name.clone() },
        word_results: sort_word_results(words),
    }
}

fn game_not_found<T>() -> (r: VortoResult<T>)
    ensures
        r is Failure && r->Failure_0.has_code(VortoErrorCode::NotFound),
{
    VortoResult::Failure(VortoError::new(VortoErrorCode::NotFound, String::from_str("Game not found")))
}

/// Rebuilds the scored view of a game from the rows of its join. No rows
/// means that there is no such game.
pub fn game_view(rows: &Vec<GameViewRow>) -> (r: VortoResult<GameView>)
    requires
        rows@.len() <= i32::MAX,
    ensures
        rows@.len() == 0 <==> r is Failure,
        r is Failure ==> r->Failure_0.has_code(VortoErrorCode::NotFound),
        r is Success ==> r->Success_0@ == game_view_model(rows@),
{
    if rows.len() == 0 {
        return game_not_found();
    }
    let first = &rows[0].game;
    let penalty = first.penalty;
    let groups = group_game_rows(rows);
    let ghost g = groups@;
    proof {
        lemma_groups_wf(rows@, rows@.len() as int);
    }
    let mut team_results: Vec<GameTeamResultView> = Vec::new();
    let n = groups.teams.len();
    for p in 0..n
        invariant
            n == g.teams.len(),
            g == groups@,
            g == group_rows(rows@, rows@.len() as int),
            groups_wf(rows@, g, rows@.len() as int),
            0 < rows@.len() <= i32::MAX,
            penalty == rows@[0].game.penalty,
            team_models(team_results@) =~= unsorted_team_results(rows@, g, penalty).take(p as int),
    {
        proof {
            assert(groups.team_words@[p as int]@ == g.team_words[p as int]);
            assert(g.team_words[p as int].len() <= rows@.len());
        }
        let tr = finish_team(
            rows,
            penalty,
            &rows[groups.teams[p]].team_result,
            &groups.team_words[p],
            false,
        );
        proof {
            assert(tr@ == unsorted_team_results(rows@, g, penalty)[p as int]);
        }
        let ghost before = team_results@;
        team_results.push(tr);
        proof {
            let u = unsorted_team_results(rows@, g, penalty);
            assert(team_results@ =~= before.push(tr));
            assert(team_models(team_results@) =~= team_models(before).push(tr@));
            assert(u.take(p + 1) =~= u.take(p as int).push(u[p as int]));
        }
    }
    proof {
        assert(unsorted_team_results(rows@, g, penalty).take(n as int) =~= unsorted_team_results(
            rows@,
            g,
            penalty,
        ));
    }
    let winner = match groups.winner {
        Some(k) => match &rows[k].winner_team_result {
            Some(wtr) => Some(finish_team(rows, penalty, wtr, &groups.winner_words, true)),
            None => unreached(),
        },
        None => None,
    };
    let view = GameView {
        id: first.id,
        penalty,
        state: first.state,
        token: first.token.clone(),
        turn: first.turn,
        word_count: first.word_count,
        round_time: first.round_time,
        team_results: sort_team_results(team_results),
        winner,
        created_at: first.created_at,
        expired_at: first.expired_at,
    };
    VortoResult::Success(view)
}

// ----- laws -----

pub open spec fn is_desc_by_score(s: Seq<TeamResultModel>) -> bool {
    forall|i: int, j: int| 0 <= i < j < s.len() ==> #[trigger] s[i].score >= #[trigger] s[j].score
}

pub open spec fn is_asc_by_order(s: Seq<WordResultModel>) -> bool {
    forall|i: int, j: int| 0 <= i < j < s.len() ==> #[trigger] s[i].order <= #[trigger] s[j].order
}

proof fn lemma_insert_by_score(x: TeamResultModel, s: Seq<TeamResultModel>)
    requires
        is_desc_by_score(s),
    ensures
        is_desc_by_score(insert_by_score(x, s)),
        insert_by_score(x, s).len() == s.len() + 1,
        insert_by_score(x, s)[0] == x || (s.len() > 0 && insert_by_score(x, s)[0] == s[0]),
        forall|k: int|
            0 <= k < insert_by_score(x, s).len() ==> #[trigger] insert_by_score(x, s)[k] == x
                || s.contains(insert_by_score(x, s)[k]),
    decreases s.len(),
{
    let ins = insert_by_score(x, s);
    if s.len() > 0 {
        let rest = s.drop_first();
        if !(s[0].score < x.score) {
            lemma_insert_by_score(x, rest);
            let tail = insert_by_score(x, rest);
            assert(ins =~= seq![s[0]] + tail);
            assert forall|k: int| 0 <= k < ins.len() implies #[trigger] ins[k] == x || s.contains(
                ins[k],
            ) by {
                if k > 0 && ins[k] != x {
                    assert(ins[k] == tail[k - 1]);
                    let j = choose|j: int| 0 <= j < rest.len() && rest[j] == tail[k - 1];
                    assert(s[j + 1] == rest[j]);
                }
            }
            assert forall|i: int, j: int| 0 <= i < j < ins.len() implies #[trigger] ins[i].score
                >= #[trigger] ins[j].score by {
                if i == 0 {
                    assert(ins[j] == tail[j - 1]);
                    assert(tail[0].score >= tail[j - 1].score);
                    if tail[0] != x {
                        assert(tail[0] == rest[0]);
                        assert(rest[0] == s[1]);
                    }
                } else {
                    assert(ins[i] == tail[i - 1]);
                    assert(ins[j] == tail[j - 1]);
                }
            }
        } else {
            assert(ins =~= seq![x] + s);
            assert forall|k: int| 0 <= k < ins.len() implies #[trigger] ins[k] == x || s.contains(
                ins[k],
            ) by {
                if k > 0 {
                    assert(ins[k] == s[k - 1]);
                }
            }
            assert forall|i: int, j: int| 0 <= i < j < ins.len() implies #[trigger] ins[i].score
                >= #[trigger] ins[j].score by {
                if i == 0 {
                    assert(ins[j] == s[j - 1]);
                    assert(s[0].score >= s[j - 1].score);
                } else {
                    assert(ins[i] == s[i - 1]);
                    assert(ins[j] == s[j - 1]);
                }
            }
        }
    }
}

proof fn lemma_sort_by_score(s: Seq<TeamResultModel>)
    ensures
        is_desc_by_score(sort_by_score(s)),
        sort_by_score(s).len() == s.len(),
        forall|k: int|
            0 <= k < sort_by_score(s).len() ==> s.contains(#[trigger] sort_by_score(s)[k]),
    decreases s.len(),
{
    if s.len() > 0 {
        let init = s.drop_last();
        lemma_sort_by_score(init);
        lemma_insert_by_score(s.last(), sort_by_score(init));
        let r = sort_by_score(s);
        assert forall|k: int| 0 <= k < r.len() implies s.contains(#[trigger] r[k]) by {
            if r[k] == s.last() {
                assert(s[s.len() - 1] == r[k]);
            } else {
                let j = choose|j: int|
                    0 <= j < sort_by_score(init).len() && sort_by_score(init)[j] == r[k];
                let i = choose|i: int| 0 <= i < init.len() && init[i] == sort_by_score(init)[j];
                assert(s[i] == init[i]);
            }
        }
    }
}

proof fn lemma_insert_by_order(x: WordResultModel, s: Seq<WordResultModel>)
    requires
        is_asc_by_order(s),
    ensures
        is_asc_by_order(insert_by_order(x, s)),
        insert_by_order(x, s).len() == s.len() + 1,
        insert_by_order(x, s)[0] == x || (s.len() > 0 && insert_by_order(x, s)[0] == s[0]),
    decreases s.len(),
{
    let ins = insert_by_order(x, s);
    if s.len() > 0 {
        let rest = s.drop_first();
        if !(x.order < s[0].order) {
            lemma_insert_by_order(x, rest);
            let tail = insert_by_order(x, rest);
            assert(ins =~= seq![s[0]] + tail);
            assert forall|i: int, j: int| 0 <= i < j < ins.len() implies #[trigger] ins[i].order
                <= #[trigger] ins[j].order by {
                if i == 0 {
                    assert(ins[j] == tail[j - 1]);
                    assert(tail[0].order <= tail[j - 1].order);
                    if tail[0] != x {
                        assert(tail[0] == rest[0]);
                        assert(rest[0] == s[1]);
                    }
                } else {
                    assert(ins[i] == tail[i - 1]);
                    assert(ins[j] == tail[j - 1]);
                }
            }
        } else {
            assert(ins =~= seq![x] + s);
            assert forall|i: int, j: int| 0 <= i < j < ins.len() implies #[trigger] ins[i].order
                <= #[trigger] ins[j].order by {
                if i == 0 {
                    assert(ins[j] == s[j - 1]);
                    assert(s[0].order <= s[j - 1].order);
                } else {
                    assert(ins[i] == s[i - 1]);
                    assert(ins[j] == s[j - 1]);
                }
            }
        }
    }
}

/// Sorting by order leaves the words ascending by order, and keeps their number.
pub proof fn lemma_sort_by_order(s: Seq<WordResultModel>)
    ensures
        is_asc_by_order(sort_by_order(s)),
        sort_by_order(s).len() == s.len(),
    decreases s.len(),
{
    if s.len() > 0 {
        lemma_sort_by_order(s.drop_last());
        lemma_insert_by_order(s.last(), sort_by_order(s.drop_last()));
    }
}

proof fn lemma_no_winner_rows(rows: Seq<GameViewRow>, n: int)
    requires
        0 <= n <= rows.len(),
        forall|i: int| 0 <= i < rows.len() ==> (#[trigger] rows[i]).winner_team_result is None,
    ensures
        group_rows(rows, n).winner is None,
    decreases n,
{
    if n > 0 {
        lemma_no_winner_rows(rows, n - 1);
    }
}

/// The view of a game ranks its team results by score, highest first; lists
/// the word results of every team, and of the winner, by ascending order;
/// and has no winner when no row carries the winner's side.
pub proof fn lemma_game_view_ordering(rows: Seq<GameViewRow>)
    requires
        rows.len() > 0,
    ensures
        is_desc_by_score(game_view_model(rows).team_results),
        forall|k: int|
            0 <= k < game_view_model(rows).team_results.len() ==> is_asc_by_order(
                (#[trigger] game_view_model(rows).team_results[k]).word_results,
            ),
        game_view_model(rows).winner is Some ==> is_asc_by_order(
            game_view_model(rows).winner->Some_0.word_results,
        ),
        (forall|i: int| 0 <= i < rows.len() ==> (#[trigger] rows[i]).winner_team_result is None)
            ==> game_view_model(rows).winner is None,
{
    let g = group_rows(rows, rows.len() as int);
    let u = unsorted_team_results(rows, g, rows[0].game.penalty);
    lemma_sort_by_score(u);
    let sorted = sort_by_score(u);
    assert forall|k: int| 0 <= k < sorted.len() implies is_asc_by_order(
        (#[trigger] sorted[k]).word_results,
    ) by {
        let p = choose|p: int| 0 <= p < u.len() && u[p] == sorted[k];
        lemma_sort_by_order(side_word_models(rows, g.team_words[p], false));
    }
    if g.winner is Some {
        lemma_sort_by_order(side_word_models(rows, g.winner_words, true));
    }
    if forall|i: int| 0 <= i < rows.len() ==> (#[trigger] rows[i]).winner_team_result is None {
        lemma_no_winner_rows(rows, rows.len() as int);
    }
}

} // verus!
