use vstd::prelude::*;

use crate::team_result::TeamResult;
use crate::word_result::WordResult;
use indexmap::IndexMap;

verus! {

#[verifier::external_type_specification]
#[verifier::external_body]
#[verifier::reject_recursive_types(K)]
#[verifier::reject_recursive_types(V)]
#[verifier::reject_recursive_types(S)]
pub struct ExIndexMap<K, V, S>(IndexMap<K, V, S>);

/// The keys of an index map, in their order.
pub uninterp spec fn index_keys(m: IndexMap<i32, ()>) -> Seq<i32>;

/// Relies on indexmap's `IndexMap::new`: the new map is empty.
#[verifier::external_body]
pub(crate) fn ids_new() -> (m: IndexMap<i32, ()>)
    ensures
        index_keys(m) == Seq::<i32>::empty(),
{
    IndexMap::new()
}

/// Relies on indexmap's `IndexMap::get_index_of`: the position of the key in
/// the map's order, if the key is there.
#[verifier::external_body]
pub(crate) fn ids_index_of(m: &IndexMap<i32, ()>, id: i32) -> (r: Option<usize>)
    ensures
        r is None <==> !index_keys(*m).contains(id),
        r is Some ==> r->Some_0 < index_keys(*m).len() && index_keys(*m)[r->Some_0 as int] == id,
{
    m.get_index_of(&id)
}

/// Relies on indexmap's `IndexMap::insert`: a key that is not yet there is
/// added last in the order.
#[verifier::external_body]
pub(crate) fn ids_insert(m: &mut IndexMap<i32, ()>, id: i32)
    requires
        !index_keys(*old(m)).contains(id),
    ensures
        index_keys(*final(m)) == index_keys(*old(m)).push(id),
{
    m.insert(id, ());
}

/// One row of the join of a game's team results with their word results;
/// the word side is absent for a team result without words.
#[derive(Debug, Clone, Copy, PartialEq, Eq, Structural)]
pub struct TeamResultWordRow {
    pub team_result: TeamResult,
    pub word_result: Option<WordResult>,
}

/// The team-result ids of a grouping, in order.
pub open spec fn group_ids(g: Seq<(TeamResult, Seq<WordResult>)>) -> Seq<i32> {
    g.map_values(|e: (TeamResult, Seq<WordResult>)| e.0.id)
}

/// The rows grouped by team result, in the order of first appearance, each
/// with the word results of its rows, in row order.
pub open spec fn grouped(rows: Seq<TeamResultWordRow>) -> Seq<(TeamResult, Seq<WordResult>)>
    decreases rows.len(),
{
    if rows.len() == 0 {
        Seq::empty()
    } else {
        let g = grouped(rows.drop_last());
        let row = rows.last();
        let ids = group_ids(g);
        if ids.contains(row.team_result.id) {
            let p = choose|p: int| 0 <= p < ids.len() && ids[p] == row.team_result.id;
            match row.word_result {
                Some(w) => g.update(p, (g[p].0, g[p].1.push(w))),
                None => g,
            }
        } else {
            g.push(
                (
                    row.team_result,
                    match row.word_result {
                        Some(w) => seq![w],
                        None => Seq::empty(),
                    },
                ),
            )
        }
    }
}

pub open spec fn groups_view(v: Seq<(TeamResult, Vec<WordResult>)>) -> Seq<(TeamResult, Seq<WordResult>)> {
    v.map_values(|e: (TeamResult, Vec<WordResult>)| (e.0, e.1@))
}

proof fn lemma_grouped_ids_distinct(rows: Seq<TeamResultWordRow>)
    ensures
        group_ids(grouped(rows)).no_duplicates(),
    decreases rows.len(),
{
    if rows.len() > 0 {
        lemma_grouped_ids_distinct(rows.drop_last());
        let g = grouped(rows.drop_last());
        let ids = group_ids(g);
        let row = rows.last();
        if ids.contains(row.team_result.id) {
            let p = choose|p: int| 0 <= p < ids.len() && ids[p] == row.team_result.id;
            assert(group_ids(grouped(rows)) =~= ids);
        } else {
            assert(group_ids(grouped(rows)) =~= ids.push(row.team_result.id));
        }
    }
}

/// Groups the rows of a game's team results and word results by team result.
pub fn group_team_results(rows: &Vec<TeamResultWordRow>) -> (r: Vec<(TeamResult, Vec<WordResult>)>)
    ensures
        groups_view(r@) == grouped(rows@),
{
    let mut index = ids_new();
    let mut groups: Vec<(TeamResult, Vec<WordResult>)> = Vec::new();
    let n = rows.len();
    proof {
        assert(rows@.take(0) =~= Seq::<TeamResultWordRow>::empty());
        assert(groups_view(groups@) =~= grouped(rows@.take(0)));
        assert(index_keys(index) =~= group_ids(groups_view(groups@)));
    }
    for k in 0..n
        invariant
            n == rows@.len(),
            groups_view(groups@) == grouped(rows@.take(k as int)),
            index_keys(index) == group_ids(groups_view(groups@)),
    {
        let row = rows[k];
        let ghost g = groups_view(groups@);
        let ghost ids = group_ids(g);
        proof {
            assert(rows@.take(k + 1).drop_last() =~= rows@.take(k as int));
            assert(rows@.take(k + 1).last() == row);
            lemma_grouped_ids_distinct(rows@.take(k as int));
        }
        match ids_index_of(&index, row.team_result.id) {
            Some(p) => {
                match row.word_result {
                    Some(w) => {
                        let mut entry: (TeamResult, Vec<WordResult>) = (row.team_result, Vec::new());
                        groups.set_and_swap(p, &mut entry);
                        entry.1.push(w);
                        groups.set_and_swap(p, &mut entry);
                        proof {
                            let q = choose|q: int| 0 <= q < ids.len() && ids[q] == row.team_result.id;
                            assert(ids[p as int] == row.team_result.id);
                            assert(q == p);
                            assert(groups_view(groups@) =~= g.update(
                                p as int,
                                (g[p as int].0, g[p as int].1.push(w)),
                            ));
                        }
                    },
                    None => {},
                }
                proof {
                    assert(group_ids(groups_view(groups@)) =~= ids);
                }
            },
            None => {
                ids_insert(&mut index, row.team_result.id);
                let mut words: Vec<WordResult> = Vec::new();
                match row.word_result {
                    Some(w) => {
                        words.push(w);
                    },
                    None => {},
                }
                groups.push((row.team_result, words));
                proof {
                    assert(groups_view(groups@) =~= g.push(
                        (
                            row.team_result,
                            match row.word_result {
                                Some(w) => seq![w],
                                None => Seq::empty(),
                            },
                        ),
                    ));
                    assert(group_ids(groups_view(groups@)) =~= ids.push(row.team_result.id));
                }
            },
        }
    }
    proof {
        assert(rows@.take(n as int) =~= rows@);
    }
    groups
}

} // verus!
