use vorto::enums::{WordDefinitionStatus, WordLoadStatus, WordStatus};
use vorto::sql::{opt_to_sql_value, to_sql_value, SqlValue};
use vorto::word_search::{
    db_str, field_order_qry, search_query, word_views, FieldMatch, FieldOrder, WordQry,
};

const HEAD: &str = "SELECT w.id, w.body, w.status, w.is_edited_after_load, w.load_status, w.timestamp, w.difficulty, wd.id AS word_definition_id, wd.definition, wd.status AS word_definition_status, wd.order, v.id AS voc_id, v.full, v.short FROM (SELECT * FROM words WHERE ";
const TAIL: &str = ") w LEFT JOIN word_definitions wd ON wd.word_id = w.id LEFT JOIN vocs v ON wd.voc_id = v.id ORDER BY w.";

#[test]
fn sql_values_are_quoted_and_escaped() {
    assert_eq!(to_sql_value(&SqlValue::Text("O'Brien".to_owned())), "'O''Brien'");
    assert_eq!(to_sql_value(&SqlValue::Text(String::new())), "''");
    assert_eq!(to_sql_value(&SqlValue::Integer(-5)), "-5");
    assert_eq!(to_sql_value(&SqlValue::Integer(i32::MIN)), "-2147483648");
    assert_eq!(opt_to_sql_value(None), "null");
    assert_eq!(opt_to_sql_value(Some(&SqlValue::Integer(7))), "7");
}

#[test]
fn in_conditions_join_values() {
    let ids = vec![SqlValue::Integer(1), SqlValue::Integer(2)];
    assert_eq!(vorto::sql::in_qry("id", &ids), "id IN (1,2)");
    let shorts = vec![SqlValue::Text("a".to_owned()), SqlValue::Text("b'c".to_owned())];
    assert_eq!(vorto::sql::in_qry("short", &shorts), "short IN ('a','b''c')");
    assert_eq!(vorto::sql::in_qry("id", &vec![]), "id IN ()");
    let texts = vec!["'a'".to_owned(), "'b'".to_owned()];
    assert_eq!(vorto::word_search::in_qry("status", &texts), "status IN ('a','b')");
    assert_eq!(db_str("active"), "'active'");
}

#[test]
fn order_clauses() {
    assert_eq!(field_order_qry(&FieldOrder { field_match: FieldMatch::Body, is_asc: true }), "body ASC");
    assert_eq!(
        field_order_qry(&FieldOrder { field_match: FieldMatch::LoadStatus, is_asc: false }),
        "load_status DESC"
    );
}

#[test]
fn search_query_with_filters() {
    let q = search_query(
        "до",
        &vec![WordStatus::Active, WordStatus::Draft],
        &vec![],
        &vec![1, 3],
        &FieldOrder { field_match: FieldMatch::Difficulty, is_asc: false },
        20,
        10,
    );
    let expected = format!(
        "{}body LIKE 'до%' AND status IN ('active','draft') AND true AND difficulty IN (1,3) ORDER BY difficulty DESC OFFSET 20 LIMIT 10{}difficulty DESC, wd.order",
        HEAD, TAIL
    );
    assert_eq!(q, expected);
}

#[test]
fn search_query_without_filters() {
    let q = search_query(
        "",
        &vec![],
        &vec![WordLoadStatus::LoadedWithFail],
        &vec![],
        &FieldOrder { field_match: FieldMatch::Body, is_asc: true },
        0,
        5,
    );
    let expected = format!(
        "{}true AND true AND load_status IN ('loaded_with_fail') AND true ORDER BY body ASC OFFSET 0 LIMIT 5{}body ASC, wd.order",
        HEAD, TAIL
    );
    assert_eq!(q, expected);
    let quoted = search_query("it's", &vec![], &vec![], &vec![], &FieldOrder { field_match: FieldMatch::Status, is_asc: true }, 0, 1);
    assert!(quoted.contains("body LIKE 'it's%' AND"));
}

fn word_row(id: i32, def: Option<(i32, &str, i32)>, voc: Option<(i32, &str, &str)>) -> WordQry {
    WordQry {
        id,
        body: format!("w{}", id),
        status: "active".to_owned(),
        is_edited_after_load: false,
        load_status: "loaded".to_owned(),
        timestamp: 10 + id as i64,
        difficulty: 2,
        word_definition_id: def.map(|d| d.0),
        definition: def.map(|d| d.1.to_owned()),
        word_definition_status: def.map(|_| "not_active".to_owned()),
        order: def.map(|d| d.2),
        voc_id: voc.map(|v| v.0),
        full: voc.map(|v| v.1.to_owned()),
        short: voc.map(|v| v.2.to_owned()),
    }
}

#[test]
fn rows_become_words_with_definitions() {
    let rows = vec![
        word_row(1, Some((11, "first meaning", 0)), Some((5, "разговорное", "разг."))),
        word_row(2, None, None),
        word_row(1, Some((12, "second meaning", 1)), None),
    ];
    let words = word_views(&rows);
    assert_eq!(words.len(), 2);
    assert_eq!(words[0].id, 1);
    assert_eq!(words[0].body, "w1");
    assert_eq!(words[0].status, WordStatus::Active);
    assert_eq!(words[0].load_status, WordLoadStatus::Loaded);
    assert_eq!(words[0].timestamp, 11);
    assert_eq!(words[0].definitions.len(), 2);
    assert_eq!(words[0].definitions[0].id, 11);
    assert_eq!(words[0].definitions[0].status, WordDefinitionStatus::NotActive);
    let voc = words[0].definitions[0].voc.as_ref().expect("voc");
    assert_eq!((voc.id, voc.short.as_str()), (5, "разг."));
    assert_eq!(words[0].definitions[1].definition, "second meaning");
    assert_eq!(words[0].definitions[1].order, 1);
    assert!(words[0].definitions[1].voc.is_none());
    assert_eq!(words[1].id, 2);
    assert!(words[1].definitions.is_empty());
    assert!(word_views(&vec![]).is_empty());
}
