use vstd::prelude::*;
use vstd::string::{StrSliceExecFns, StringExecFns};

use crate::common::{decimal_text, int_text, joined, long_text};
use crate::definition_text::texts;
use crate::enums::{
    word_definition_status_text, word_load_status_text, word_status_text, WordDefinitionStatus,
    WordLoadStatus, WordStatus,
};
use crate::team_rows::{ids_index_of, ids_insert, ids_new, index_keys};

verus! {

/// The field that search results are ordered by.
#[derive(Debug, Clone, Copy, PartialEq, Eq, Structural)]
pub enum FieldMatch {
    Body,
    Status,
    LoadStatus,
    Difficulty,
}

#[derive(Debug, Clone, Copy, PartialEq, Eq, Structural)]
pub struct FieldOrder {
    pub field_match: FieldMatch,
    pub is_asc: bool,
}

pub open spec fn field_name(f: FieldMatch) -> Seq<char> {
    match f {
        FieldMatch::Body => "body"@,
        FieldMatch::Status => "status"@,
        FieldMatch::LoadStatus => "load_status"@,
        FieldMatch::Difficulty => "difficulty"@,
    }
}

/// The ordering clause: the field, then `ASC` or `DESC`.
pub open spec fn order_text(fo: FieldOrder) -> Seq<char> {
    field_name(fo.field_match) + " "@ + if fo.is_asc {
        "ASC"@
    } else {
        "DESC"@
    }
}

pub open spec fn quoted(s: Seq<char>) -> Seq<char> {
    "'"@ + s + "'"@
}

/// The condition that `field` is one of `parts`; always true when there are none.
pub open spec fn list_condition(field: Seq<char>, parts: Seq<Seq<char>>) -> Seq<char> {
    if parts.len() == 0 {
        "true"@
    } else {
        field + " IN ("@ + joined(parts, ","@) + ")"@
    }
}

/// The condition that the body starts with `text`, which is placed in the
/// pattern as it is; always true for an empty text.
pub open spec fn text_condition(text: Seq<char>) -> Seq<char> {
    if text.len() == 0 {
        "true"@
    } else {
        "body LIKE '"@ + text + "%'"@
    }
}

pub open spec fn status_parts(statuses: Seq<WordStatus>) -> Seq<Seq<char>> {
    statuses.map_values(|s: WordStatus| quoted(word_status_text(s)))
}

pub open spec fn load_status_parts(statuses: Seq<WordLoadStatus>) -> Seq<Seq<char>> {
    statuses.map_values(|s: WordLoadStatus| quoted(word_load_status_text(s)))
}

pub open spec fn difficulty_parts(difficulties: Seq<i32>) -> Seq<Seq<char>> {
    difficulties.map_values(|d: i32| decimal_text(d as int))
}

pub open spec fn search_head() -> Seq<char> {
    "SELECT w.id, w.body, w.status, w.is_edited_after_load, w.load_status, w.timestamp, w.difficulty, wd.id AS word_definition_id, wd.definition, wd.status AS word_definition_status, wd.order, v.id AS voc_id, v.full, v.short FROM (SELECT * FROM words WHERE "@
}

pub open spec fn search_tail() -> Seq<char> {
    ") w LEFT JOIN word_definitions wd ON wd.word_id = w.id LEFT JOIN vocs v ON wd.voc_id = v.id ORDER BY w."@
}

/// The query for one page of catalog words with their definitions and
/// vocabulary entries: the words that match every filter, ordered, skipped
/// and limited, each with its definitions in order.
pub open spec fn search_sql(
    text: Seq<char>,
    statuses: Seq<WordStatus>,
    load_statuses: Seq<WordLoadStatus>,
    difficulties: Seq<i32>,
    field_order: FieldOrder,
    skip: i64,
    take: i64,
) -> Seq<char> {
    search_head() + text_condition(text) + " AND "@ + list_condition("status"@, status_parts(statuses))
        + " AND "@ + list_condition("load_status"@, load_status_parts(load_statuses)) + " AND "@
        + list_condition("difficulty"@, difficulty_parts(difficulties)) + " ORDER BY "@ + order_text(
        field_order,
    ) + " OFFSET "@ + decimal_text(skip as int) + " LIMIT "@ + decimal_text(take as int)
        + search_tail() + order_text(field_order) + ", wd.order"@
}

/// `val` between single quotes.
pub fn db_str(val: &str) -> (r: String)
    ensures
        r@ == quoted(val@),
{
    let mut text = String::from_str("'");
    text.append(val);
    text.append("'");
    text
}

/// The condition that `field` is one of the SQL texts `values`.
pub fn in_qry(field: &str, values: &Vec<String>) -> (r: String)
    ensures
        r@ == field@ + " IN ("@ + joined(texts(values@), ","@) + ")"@,
{
    let ghost parts = texts(values@);
    let mut list = String::new();
    let n = values.len();
    for i in 0..n
        invariant
            n == values@.len(),
            parts == texts(values@),
            list@ == joined(parts.take(i as int), ","@),
    {
        if i > 0 {
            list.append(",");
        }
        list.append(values[i].as_str());
        proof {
            assert(parts.take(i + 1).drop_last() =~= parts.take(i as int));
            if i == 0 {
                assert(list@ =~= joined(parts.take(1), ","@));
            } else {
                assert(list@ =~= joined(parts.take(i as int), ","@) + ","@ + parts[i as int]);
            }
        }
    }
    proof {
        assert(parts.take(n as int) =~= parts);
    }
    let mut text = String::from_str(field);
    text.append(" IN (");
    text.append(list.as_str());
    text.append(")");
    text
}

pub fn field_order_qry(field_order: &FieldOrder) -> (r: String)
    ensures
        r@ == order_text(*field_order),
{
    let field = match field_order.field_match {
        FieldMatch::Body => "body",
        FieldMatch::Status => "status",
        FieldMatch::LoadStatus => "load_status",
        FieldMatch::Difficulty => "difficulty",
    };
    let order = if field_order.is_asc {
        "ASC"
    } else {
        "DESC"
    };
    let mut text = String::from_str(field);
    text.append(" ");
    text.append(order);
    text
}

/// A list condition, or `true` when the list is empty.
fn list_qry(field: &str, values: &Vec<String>) -> (r: String)
    ensures
        r@ == list_condition(field@, texts(values@)),
{
    if values.len() == 0 {
        String::from_str("true")
    } else {
        in_qry(field, values)
    }
}

fn text_qry(text: &str) -> (r: String)
    ensures
        r@ == text_condition(text@),
{
    if text.unicode_len() == 0 {
        String::from_str("true")
    } else {
        let mut q = String::from_str("body LIKE '");
        q.append(text);
        q.append("%'");
        q
    }
}

/// Builds the query for one page of catalog words.
pub fn search_query(
    text: &str,
    statuses: &Vec<WordStatus>,
    load_statuses: &Vec<WordLoadStatus>,
    difficulties: &Vec<i32>,
    field_order: &FieldOrder,
    skip: i64,
    take: i64,
) -> (r: String)
    ensures
        r@ == search_sql(
            text@,
            statuses@,
            load_statuses@,
            difficulties@,
            *field_order,
            skip,
            take,
        ),
{
    let mut status_values: Vec<String> = Vec::new();
    for i in 0..statuses.len()
        invariant
            texts(status_values@) =~= status_parts(statuses@).take(i as int),
    {
        let ghost prev = status_values@;
        let item = db_str(statuses[i].as_str());
        status_values.push(item);
        proof {
            assert(status_values@ =~= prev.push(item));
            assert(texts(status_values@) =~= texts(prev).push(item@));
            assert(status_parts(statuses@).take(i + 1) =~= status_parts(statuses@).take(i as int).push(
                status_parts(statuses@)[i as int],
            ));
        }
    }
    let mut load_status_values: Vec<String> = Vec::new();
    for i in 0..load_statuses.len()
        invariant
            texts(load_status_values@) =~= load_status_parts(load_statuses@).take(i as int),
    {
        let ghost prev = load_status_values@;
        let item = db_str(load_statuses[i].as_str());
        load_status_values.push(item);
        proof {
            assert(load_status_values@ =~= prev.push(item));
            assert(texts(load_status_values@) =~= texts(prev).push(item@));
            assert(load_status_parts(load_statuses@).take(i + 1) =~= load_status_parts(load_statuses@).take(i as int).push(
                load_status_parts(load_statuses@)[i as int],
            ));
        }
    }
    let mut difficulty_values: Vec<String> = Vec::new();
    for i in 0..difficulties.len()
        invariant
            texts(difficulty_values@) =~= difficulty_parts(difficulties@).take(i as int),
    {
        let ghost prev = difficulty_values@;
        let item = int_text(difficulties[i]);
        difficulty_values.push(item);
        proof {
            assert(difficulty_values@ =~= prev.push(item));
            assert(texts(difficulty_values@) =~= texts(prev).push(item@));
            assert(difficulty_parts(difficulties@).take(i + 1) =~= difficulty_parts(difficulties@).take(i as int).push(
                difficulty_parts(difficulties@)[i as int],
            ));
        }
    }
    proof {
        assert(status_parts(statuses@).take(statuses@.len() as int) =~= status_parts(statuses@));
        assert(load_status_parts(load_statuses@).take(load_statuses@.len() as int)
            =~= load_status_parts(load_statuses@));
        assert(difficulty_parts(difficulties@).take(difficulties@.len() as int) =~= difficulty_parts(
            difficulties@,
        ));
    }
    let order = field_order_qry(field_order);
    let mut q = String::from_str(
        "SELECT w.id, w.body, w.status, w.is_edited_after_load, w.load_status, w.timestamp, w.difficulty, wd.id AS word_definition_id, wd.definition, wd.status AS word_definition_status, wd.order, v.id AS voc_id, v.full, v.short FROM (SELECT * FROM words WHERE ",
    );
    q.append(text_qry(text).as_str());
    q.append(" AND ");
    q.append(list_qry("status", &status_values).as_str());
    q.append(" AND ");
    q.append(list_qry("load_status", &load_status_values).as_str());
    q.append(" AND ");
    q.append(list_qry("difficulty", &difficulty_values).as_str());
    q.append(" ORDER BY ");
    q.append(order.as_str());
    q.append(" OFFSET ");
    q.append(long_text(skip).as_str());
    q.append(" LIMIT ");
    q.append(long_text(take).as_str());
    q.append(
        ") w LEFT JOIN word_definitions wd ON wd.word_id = w.id LEFT JOIN vocs v ON wd.voc_id = v.id ORDER BY w.",
    );
    q.append(order.as_str());
    q.append(", wd.order");
    q
}

// ----- result rows -----

/// One row of the search query: a word, and one of its definitions with its
/// vocabulary entry when it has any.
#[derive(Debug, Clone)]
pub struct WordQry {
    pub id: i32,
    pub body: String,
    pub status: String,
    pub is_edited_after_load: bool,
    pub load_status: String,
    pub timestamp: i64,
    pub difficulty: i32,
    pub word_definition_id: Option<i32>,
    pub definition: Option<String>,
    pub word_definition_status: Option<String>,
    pub order: Option<i32>,
    pub voc_id: Option<i32>,
    pub full: Option<String>,
    pub short: Option<String>,
}

#[derive(Debug, Clone)]
pub struct VocView {
    pub id: i32,
    pub full: String,
    pub short: String,
}

#[derive(Debug, Clone)]
pub struct WordDefinitionView {
    pub id: i32,
    pub definition: String,
    pub status: WordDefinitionStatus,
    pub order: i32,
    pub voc: Option<VocView>,
}

#[derive(Debug, Clone)]
pub struct WordView {
    pub id: i32,
    pub body: String,
    pub status: WordStatus,
    pub is_edited_after_load: bool,
    pub load_status: WordLoadStatus,
    pub definitions: Vec<WordDefinitionView>,
    pub timestamp: i64,
    pub difficulty: i32,
}

/// Whether a row is complete: its statuses are known texts, and a
/// definition, and a vocabulary entry, come with all their fields.
pub open spec fn row_complete(r: WordQry) -> bool {
    &&& exists|s: WordStatus| word_status_text(s) == r.status@
    &&& exists|s: WordLoadStatus| word_load_status_text(s) == r.load_status@
    &&& r.word_definition_id is Some ==> {
        &&& r.definition is Some
        &&& r.order is Some
        &&& r.word_definition_status is Some
        &&& exists|s: WordDefinitionStatus| word_definition_status_text(s) == r.word_definition_status->Some_0@
    }
    &&& r.voc_id is Some ==> r.full is Some && r.short is Some
}

/// The rows grouped by word, in the order of first appearance: for each word
/// the row that introduced it and the rows that carry one of its definitions.
pub open spec fn word_groups(rows: Seq<WordQry>) -> Seq<(usize, Seq<usize>)>
    decreases rows.len(),
{
    if rows.len() == 0 {
        Seq::empty()
    } else {
        let g = word_groups(rows.drop_last());
        let k = (rows.len() - 1) as usize;
        let ids = word_group_ids(rows, g);
        let has_def = rows[k as int].word_definition_id is Some;
        if ids.contains(rows[k as int].id) {
            let p = choose|p: int| 0 <= p < ids.len() && ids[p] == rows[k as int].id;
            if has_def {
                g.update(p, (g[p].0, g[p].1.push(k)))
            } else {
                g
            }
        } else {
            g.push((k, if has_def { seq![k] } else { Seq::empty() }))
        }
    }
}

pub open spec fn word_group_ids(rows: Seq<WordQry>, g: Seq<(usize, Seq<usize>)>) -> Seq<i32> {
    g.map_values(|e: (usize, Seq<usize>)| rows[e.0 as int].id)
}

/// Whether `d` is the definition carried by row `r`.
pub open spec fn is_definition_of(d: WordDefinitionView, r: WordQry) -> bool {
    &&& d.id == r.word_definition_id->Some_0
    &&& d.definition@ == r.definition->Some_0@
    &&& word_definition_status_text(d.status) == r.word_definition_status->Some_0@
    &&& d.order == r.order->Some_0
    &&& match d.voc {
        Some(v) => r.voc_id == Some(v.id) && v.full@ == r.full->Some_0@ && v.short@ == r.short->Some_0@,
        None => r.voc_id is None,
    }
}

/// Whether `w` is the word of row `r`, with the definitions of the rows `defs`.
pub open spec fn is_word_of(w: WordView, rows: Seq<WordQry>, first: usize, defs: Seq<usize>) -> bool {
    let r = rows[first as int];
    &&& w.id == r.id
    &&& w.body@ == r.body@
    &&& word_status_text(w.status) == r.status@
    &&& w.is_edited_after_load == r.is_edited_after_load
    &&& word_load_status_text(w.load_status) == r.load_status@
    &&& w.timestamp == r.timestamp
    &&& w.difficulty == r.difficulty
    &&& w.definitions@.len() == defs.len()
    &&& forall|j: int|
        0 <= j < defs.len() ==> is_definition_of(#[trigger] w.definitions@[j], rows[defs[j] as int])
}

proof fn lemma_word_groups(rows: Seq<WordQry>)
    ensures
        word_group_ids(rows, word_groups(rows)).no_duplicates(),
        forall|p: int|
            0 <= p < word_groups(rows).len() ==> {
                &&& (#[trigger] word_groups(rows)[p]).0 < rows.len()
                &&& forall|j: int|
                    0 <= j < word_groups(rows)[p].1.len() ==> {
                        &&& #[trigger] word_groups(rows)[p].1[j] < rows.len()
                        &&& rows[word_groups(rows)[p].1[j] as int].word_definition_id is Some
                    }
            },
    decreases rows.len(),
{
    if rows.len() > 0 {
        let init = rows.drop_last();
        lemma_word_groups(init);
        let g = word_groups(init);
        let k = (rows.len() - 1) as usize;
        assert forall|p: int| 0 <= p < g.len() implies #[trigger] word_group_ids(rows, g)[p]
            == word_group_ids(init, g)[p] by {
            assert(rows[g[p].0 as int] == init[g[p].0 as int]);
        }
        assert(word_group_ids(rows, g) =~= word_group_ids(init, g));
        let ids = word_group_ids(rows, g);
        let gn = word_groups(rows);
        if ids.contains(rows[k as int].id) {
            assert(word_group_ids(rows, gn) =~= ids);
            let q = choose|p: int| 0 <= p < ids.len() && ids[p] == rows[k as int].id;
            assert forall|p: int| 0 <= p < gn.len() implies {
                &&& (#[trigger] gn[p]).0 < rows.len()
                &&& forall|j: int|
                    0 <= j < gn[p].1.len() ==> {
                        &&& #[trigger] gn[p].1[j] < rows.len()
                        &&& rows[gn[p].1[j] as int].word_definition_id is Some
                    }
            } by {
                assert forall|j: int| 0 <= j < gn[p].1.len() implies {
                    &&& #[trigger] gn[p].1[j] < rows.len()
                    &&& rows[gn[p].1[j] as int].word_definition_id is Some
                } by {
                    if !(p == q && j == g[p].1.len()) {
                        assert(gn[p].1[j] == g[p].1[j]);
                        assert(rows[g[p].1[j] as int] == init[g[p].1[j] as int]);
                    }
                }
            }
        } else {
            assert(word_group_ids(rows, gn) =~= ids.push(rows[k as int].id));
            assert forall|p: int| 0 <= p < gn.len() implies {
                &&& (#[trigger] gn[p]).0 < rows.len()
                &&& forall|j: int|
                    0 <= j < gn[p].1.len() ==> {
                        &&& #[trigger] gn[p].1[j] < rows.len()
                        &&& rows[gn[p].1[j] as int].word_definition_id is Some
                    }
            } by {
                if p < g.len() {
                    assert forall|j: int| 0 <= j < gn[p].1.len() implies {
                        &&& #[trigger] gn[p].1[j] < rows.len()
                        &&& rows[gn[p].1[j] as int].word_definition_id is Some
                    } by {
                        assert(rows[g[p].1[j] as int] == init[g[p].1[j] as int]);
                    }
                }
            }
        }
    }
}

pub open spec fn groups_seq(v: Seq<(usize, Vec<usize>)>) -> Seq<(usize, Seq<usize>)> {
    v.map_values(|e: (usize, Vec<usize>)| (e.0, e.1@))
}

fn group_word_rows(rows: &Vec<WordQry>) -> (r: Vec<(usize, Vec<usize>)>)
    ensures
        groups_seq(r@) == word_groups(rows@),
{
    let mut index = ids_new();
    let mut groups: Vec<(usize, Vec<usize>)> = Vec::new();
    let n = rows.len();
    proof {
        assert(rows@.take(0) =~= Seq::<WordQry>::empty());
        assert(groups_seq(groups@) =~= word_groups(rows@.take(0)));
        assert(index_keys(index) =~= word_group_ids(rows@, groups_seq(groups@)));
    }
    for k in 0..n
        invariant
            n == rows@.len(),
            groups_seq(groups@) == word_groups(rows@.take(k as int)),
            index_keys(index) == word_group_ids(rows@, groups_seq(groups@)),
    {
        let ghost g = groups_seq(groups@);
        let ghost pre = rows@.take(k as int);
        let ghost cur = rows@.take(k + 1);
        proof {
            assert(cur.drop_last() =~= pre);
            lemma_word_groups(pre);
            assert forall|p: int| 0 <= p < g.len() implies #[trigger] word_group_ids(cur, g)[p]
                == word_group_ids(rows@, g)[p] by {
                assert(cur[g[p].0 as int] == rows@[g[p].0 as int]);
            }
            assert(word_group_ids(cur, g) =~= word_group_ids(rows@, g));
            assert forall|p: int| 0 <= p < g.len() implies #[trigger] word_group_ids(pre, g)[p]
                == word_group_ids(rows@, g)[p] by {
                assert(pre[g[p].0 as int] == rows@[g[p].0 as int]);
            }
            assert(word_group_ids(pre, g) =~= word_group_ids(rows@, g));
            assert(cur[k as int] == rows@[k as int]);
        }
        let id = rows[k].id;
        let has_def = rows[k].word_definition_id.is_some();
        match ids_index_of(&index, id) {
            Some(p) => {
                if has_def {
                    let mut entry: (usize, Vec<usize>) = (k, Vec::new());
                    groups.set_and_swap(p, &mut entry);
                    entry.1.push(k);
                    groups.set_and_swap(p, &mut entry);
                    proof {
                        let ids = word_group_ids(cur, g);
                        let q = choose|q: int| 0 <= q < ids.len() && ids[q] == rows@[k as int].id;
                        assert(ids[p as int] == id);
                        assert(q == p);
                        assert(groups_seq(groups@) =~= g.update(
                            p as int,
                            (g[p as int].0, g[p as int].1.push(k)),
                        ));
                    }
                }
                proof {
                    assert(word_group_ids(rows@, groups_seq(groups@)) =~= word_group_ids(rows@, g));
                }
            },
            None => {
                ids_insert(&mut index, id);
                let mut defs: Vec<usize> = Vec::new();
                if has_def {
                    defs.push(k);
                }
                groups.push((k, defs));
                proof {
                    assert(groups_seq(groups@) =~= g.push(
                        (
                            k,
                            if has_def {
                                seq![k]
                            } else {
                                Seq::empty()
                            },
                        ),
                    ));
                    assert(word_group_ids(rows@, groups_seq(groups@)) =~= word_group_ids(rows@, g).push(
                        id,
                    ));
                }
            },
        }
    }
    proof {
        assert(rows@.take(n as int) =~= rows@);
    }
    groups
}

fn definition_of_row(r: &WordQry) -> (d: WordDefinitionView)
    requires
        row_complete(*r),
        r.word_definition_id is Some,
    ensures
        is_definition_of(d, *r),
{
    let id = match r.word_definition_id {
        Some(id) => id,
        None => unreached(),
    };
    let definition = match &r.definition {
        Some(t) => t.clone(),
        None => unreached(),
    };
    let status = match &r.word_definition_status {
        Some(t) => match WordDefinitionStatus::from_text(t.as_str()) {
            Some(s) => s,
            None => unreached(),
        },
        None => unreached(),
    };
    let order = match r.order {
        Some(o) => o,
        None => unreached(),
    };
    let voc = match r.voc_id {
        Some(voc_id) => {
            let full = match &r.full {
                Some(t) => t.clone(),
                None => unreached(),
            };
            let short = match &r.short {
                Some(t) => t.clone(),
                None => unreached(),
            };
            Some(VocView { id: voc_id, full, short })
        },
        None => None,
    };
    WordDefinitionView { id, definition, status, order, voc }
}

fn build_word(rows: &Vec<WordQry>, first: usize, defs: &Vec<usize>) -> (w: WordView)
    requires
        first < rows@.len(),
        forall|i: int| 0 <= i < rows@.len() ==> row_complete(#[trigger] rows@[i]),
        forall|j: int|
            0 <= j < defs@.len() ==> #[trigger] defs@[j] < rows@.len() && rows@[defs@[j] as int].word_definition_id is Some,
    ensures
        is_word_of(w, rows@, first, defs@),
{
    let r = &rows[first];
    let status = match WordStatus::from_text(r.status.as_str()) {
        Some(s) => s,
        None => unreached(),
    };
    let load_status = match WordLoadStatus::from_text(r.load_status.as_str()) {
        Some(s) => s,
        None => unreached(),
    };
    let mut definitions: Vec<WordDefinitionView> = Vec::new();
    let n = defs.len();
    for j in 0..n
        invariant
            n == defs@.len(),
            forall|i: int| 0 <= i < rows@.len() ==> row_complete(#[trigger] rows@[i]),
            forall|j: int|
                0 <= j < defs@.len() ==> #[trigger] defs@[j] < rows@.len() && rows@[defs@[j] as int].word_definition_id is Some,
            definitions@.len() == j,
            forall|i: int|
                0 <= i < j ==> is_definition_of(#[trigger] definitions@[i], rows@[defs@[i] as int]),
    {
        let d = definition_of_row(&rows[defs[j]]);
        definitions.push(d);
    }
    WordView {
        id: r.id,
        body: r.body.clone(),
        status,
        is_edited_after_load: r.is_edited_after_load,
        load_status,
        definitions,
        timestamp: r.timestamp,
        difficulty: r.difficulty,
    }
}

/// The words of the search rows, in the order of first appearance, each with
/// the definitions of its rows in row order.
pub fn word_views(rows: &Vec<WordQry>) -> (r: Vec<WordView>)
    requires
        forall|i: int| 0 <= i < rows@.len() ==> row_complete(#[trigger] rows@[i]),
    ensures
        r@.len() == word_groups(rows@).len(),
        forall|p: int|
            0 <= p < r@.len() ==> is_word_of(
                #[trigger] r@[p],
                rows@,
                word_groups(rows@)[p].0,
                word_groups(rows@)[p].1,
            ),
{
    let groups = group_word_rows(rows);
    let ghost g = word_groups(rows@);
    proof {
        lemma_word_groups(rows@);
    }
    let mut out: Vec<WordView> = Vec::new();
    let n = groups.len();
    for p in 0..n
        invariant
            n == groups@.len(),
            g == word_groups(rows@),
            groups_seq(groups@) == g,
            forall|i: int| 0 <= i < rows@.len() ==> row_complete(#[trigger] rows@[i]),
            forall|p: int|
                0 <= p < g.len() ==> {
                    &&& (#[trigger] g[p]).0 < rows@.len()
                    &&& forall|j: int|
                        0 <= j < g[p].1.len() ==> {
                            &&& #[trigger] g[p].1[j] < rows@.len()
                            &&& rows@[g[p].1[j] as int].word_definition_id is Some
                        }
                },
            out@.len() == p,
            forall|q: int| 0 <= q < p ==> is_word_of(#[trigger] out@[q], rows@, g[q].0, g[q].1),
    {
        proof {
            assert(g[p as int] == (groups@[p as int].0, groups@[p as int].1@));
            let defs = groups@[p as int].1@;
            assert forall|j: int| 0 <= j < defs.len() implies #[trigger] defs[j] < rows@.len()
                && rows@[defs[j] as int].word_definition_id is Some by {
                assert(defs[j] == g[p as int].1[j]);
            }
        }
        let w = build_word(rows, groups[p].0, &groups[p].1);
        out.push(w);
    }
    out
}

} // verus!
