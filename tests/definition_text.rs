use vorto::definition_text::{
    attach_vocs, get_all_vocs, pretty_definition, remove_multiple_spaces, remove_noise,
    remove_samples, remove_vocs, replace_u, vocs_url,
};
use vorto::word::Voc;

fn strings(items: &[&str]) -> Vec<String> {
    items.iter().map(|s| s.to_string()).collect()
}

#[test]
fn no_break_spaces_become_spaces() {
    assert_eq!(replace_u("a\u{a0}b\u{a0}\u{a0}c"), "a b  c");
    assert_eq!(replace_u("plain"), "plain");
}

#[test]
fn samples_are_cut_off() {
    assert_eq!(remove_samples("meaning \u{25c6} sample"), "meaning ");
    assert_eq!(remove_samples("\u{25c6}x"), "");
    assert_eq!(remove_samples("no samples"), "no samples");
}

#[test]
fn labels_and_leading_separators_are_removed() {
    let vocs = strings(&["разг.", "устар."]);
    assert_eq!(remove_vocs(&vocs, "разг., устар., дом"), "дом");
    assert_eq!(remove_vocs(&strings(&[""]), ", x"), "x");
    assert_eq!(remove_vocs(&vec![], "x, y"), "x, y");
}

#[test]
fn footnotes_and_spaces_are_cleaned() {
    assert_eq!(remove_noise(" text [1] more [a 12]"), "text   more");
    assert_eq!(remove_multiple_spaces("a   b  c d"), "a b c d");
}

#[test]
fn definition_is_made_presentable() {
    let vocs = strings(&["разг."]);
    assert_eq!(pretty_definition(&vocs, "разг.,\u{a0}дом [1] \u{25c6} пример"), "дом");
    assert_eq!(pretty_definition(&vec![], "a  place   to live [2]"), "a place to live");
}

#[test]
fn page_address_is_percent_encoded() {
    assert_eq!(
        vocs_url("дом"),
        "https://ru.wiktionary.org/w/index.php?title=%D0%B4%D0%BE%D0%BC&printable=yes"
    );
    assert_eq!(
        vocs_url("a b-c_d.e~f"),
        "https://ru.wiktionary.org/w/index.php?title=a%20b-c_d.e~f&printable=yes"
    );
}

#[test]
fn labels_are_listed_once() {
    let defs = vec![
        (strings(&["a", "b"]), "x".to_owned()),
        (strings(&["b", "c"]), "y".to_owned()),
        (vec![], "z".to_owned()),
    ];
    assert_eq!(get_all_vocs(&defs), strings(&["a", "b", "c"]));
    assert!(get_all_vocs(&vec![]).is_empty());
}

#[test]
fn definitions_get_their_first_label_entry() {
    let vocs = vec![
        Voc { id: 1, short: "a".to_owned(), full: "first".to_owned() },
        Voc { id: 2, short: "b".to_owned(), full: "second".to_owned() },
        Voc { id: 3, short: "a".to_owned(), full: "third".to_owned() },
    ];
    let defs = vec![
        (strings(&["a", "b"]), "d1".to_owned()),
        (vec![], "d2".to_owned()),
        (strings(&["z", "b"]), "d3".to_owned()),
        (strings(&["b"]), "d4".to_owned()),
    ];
    let out = attach_vocs(&defs, &vocs);
    assert_eq!(out.len(), 4);
    assert_eq!(out[0].0.as_ref().map(|v| v.id), Some(3));
    assert_eq!(out[0].1, "d1");
    assert!(out[1].0.is_none());
    assert!(out[2].0.is_none());
    assert_eq!(out[3].0.as_ref().map(|v| v.full.clone()), Some("second".to_owned()));
    assert_eq!(out[3].1, "d4");
}
