use vorto::common::reduce_results;
use vorto::enums::{WordDefinitionStatus, WordLoadStatus, WordStatus};
use vorto::error::{VortoError, VortoErrorCode, VortoResult};
use vorto::word::{check_timestamp, load_definitions, new, update, validate_body, Voc, Word, WordDefinitionDTO};
use vorto::word_definition::{self, validate_definition};

fn word() -> Word {
    Word {
        id: 5,
        body: "дом".to_owned(),
        status: WordStatus::Draft,
        is_edited_after_load: false,
        load_status: WordLoadStatus::NotLoaded,
        difficulty: 2,
        timestamp: 100,
    }
}

fn code_of<T>(r: &VortoResult<T>) -> i32 {
    match r {
        VortoResult::Failure(e) => e.code,
        VortoResult::Success(_) => panic!("expected a failure"),
    }
}

fn success<T>(r: VortoResult<T>) -> T {
    match r {
        VortoResult::Success(v) => v,
        VortoResult::Failure(e) => panic!("unexpected failure: {}", e.message),
    }
}

const LONG_DEF: &str = "a building where people live";

#[test]
fn body_needs_a_character_on_a_line() {
    assert!(validate_body("слово").is_ok());
    assert!(validate_body("a").is_ok());
    assert_eq!(code_of(&validate_body("")), 4);
    assert_eq!(code_of(&validate_body("\n\n")), 4);
    assert!(validate_body("\nx").is_ok());
}

#[test]
fn new_word_keeps_fields() {
    let w = success(new(1, "кот", WordStatus::Active, true, WordLoadStatus::Loaded, 3, 77));
    assert_eq!(w.id, 1);
    assert_eq!(w.body, "кот");
    assert_eq!(w.status, WordStatus::Active);
    assert!(w.is_edited_after_load);
    assert_eq!(w.load_status, WordLoadStatus::Loaded);
    assert_eq!(w.difficulty, 3);
    assert_eq!(w.timestamp, 77);
    assert_eq!(code_of(&new(1, "", WordStatus::Active, true, WordLoadStatus::Loaded, 3, 77)), 4);
}

#[test]
fn timestamp_must_match() {
    assert!(check_timestamp(5, 5).is_ok());
    assert_eq!(code_of(&check_timestamp(5, 6)), 1);
}

#[test]
fn definition_length_in_bytes() {
    assert_eq!(code_of(&validate_definition("too short")), 4);
    assert!(validate_definition("just right").is_ok());
    assert!(validate_definition("пять букв").is_ok());
    assert!(validate_definition(&"x".repeat(1000)).is_ok());
    assert_eq!(code_of(&validate_definition(&"x".repeat(1001))), 4);
    let d = success(word_definition::new(3, LONG_DEF, &WordDefinitionStatus::Active, 2, 9, Some(4)));
    assert_eq!(d.id, 3);
    assert_eq!(d.definition, LONG_DEF);
    assert_eq!(d.status, WordDefinitionStatus::Active);
    assert_eq!(d.order, 2);
    assert_eq!(d.word_id, 9);
    assert_eq!(d.voc_id, Some(4));
}

#[test]
fn failed_import_marks_word() {
    let failed: VortoResult<Vec<(Option<Voc>, String)>> =
        VortoResult::Failure(VortoError::new(VortoErrorCode::Infrastructure, "down".to_owned()));
    let (w, defs) = success(load_definitions(&word(), 100, &failed, 555));
    assert_eq!(w.load_status, WordLoadStatus::LoadedWithFail);
    assert_eq!(w.timestamp, 555);
    assert_eq!(w.body, "дом");
    assert!(defs.is_empty());
    let (w, defs) = success(load_definitions(&word(), 100, &VortoResult::Success(vec![]), 555));
    assert_eq!(w.load_status, WordLoadStatus::LoadedWithFail);
    assert!(defs.is_empty());
}

#[test]
fn import_numbers_definitions() {
    let voc = Voc { id: 8, short: "разг.".to_owned(), full: "разговорное".to_owned() };
    let defs = VortoResult::Success(vec![
        (Some(voc), LONG_DEF.to_owned()),
        (None, "another long definition".to_owned()),
    ]);
    let (w, out) = success(load_definitions(&word(), 100, &defs, 600));
    assert_eq!(w.load_status, WordLoadStatus::Loaded);
    assert_eq!(w.timestamp, 600);
    assert_eq!(w.status, WordStatus::Draft);
    assert_eq!(out.len(), 2);
    assert_eq!(out[0].order, 0);
    assert_eq!(out[0].voc_id, Some(8));
    assert_eq!(out[0].status, WordDefinitionStatus::NotActive);
    assert_eq!(out[0].word_id, 5);
    assert_eq!(out[0].id, -1);
    assert_eq!(out[1].order, 1);
    assert_eq!(out[1].voc_id, None);
    assert_eq!(out[1].definition, "another long definition");
}

#[test]
fn import_rejects_stale_timestamp_and_bad_definitions() {
    let defs = VortoResult::Success(vec![(None, LONG_DEF.to_owned())]);
    assert_eq!(code_of(&load_definitions(&word(), 99, &defs, 600)), 1);
    let bad = VortoResult::Success(vec![(None, LONG_DEF.to_owned()), (None, "short".to_owned())]);
    assert_eq!(code_of(&load_definitions(&word(), 100, &bad, 600)), 4);
}

#[test]
fn update_replaces_status_and_definitions() {
    let dtos = vec![
        WordDefinitionDTO { definition: LONG_DEF.to_owned(), status: WordDefinitionStatus::Active, voc_id: None },
        WordDefinitionDTO { definition: "second definition".to_owned(), status: WordDefinitionStatus::NotActive, voc_id: Some(2) },
    ];
    let (w, out) = success(update(&word(), &WordStatus::Active, 7, 100, &dtos, 900));
    assert_eq!(w.status, WordStatus::Active);
    assert_eq!(w.difficulty, 7);
    assert_eq!(w.timestamp, 900);
    assert_eq!(w.load_status, WordLoadStatus::NotLoaded);
    assert_eq!(out.len(), 2);
    assert_eq!(out[0].status, WordDefinitionStatus::Active);
    assert_eq!(out[1].status, WordDefinitionStatus::NotActive);
    assert_eq!(out[1].order, 1);
    assert_eq!(out[1].voc_id, Some(2));
    assert_eq!(code_of(&update(&word(), &WordStatus::Active, 7, 1, &dtos, 900)), 1);
    let bad = vec![WordDefinitionDTO { definition: "tiny".to_owned(), status: WordDefinitionStatus::Active, voc_id: None }];
    assert_eq!(code_of(&update(&word(), &WordStatus::Active, 7, 100, &bad, 900)), 4);
}

#[test]
fn reduce_results_collects_values_or_errors() {
    let all_ok: Vec<VortoResult<i32>> = vec![VortoResult::Success(1), VortoResult::Success(2)];
    assert_eq!(success(reduce_results(all_ok)), vec![1, 2]);
    assert_eq!(success(reduce_results(Vec::<VortoResult<i32>>::new())), Vec::<i32>::new());
    let mixed: Vec<VortoResult<i32>> = vec![
        VortoResult::Success(1),
        VortoResult::Failure(VortoError::new(VortoErrorCode::TeamSize, "a".to_owned())),
        VortoResult::Failure(VortoError::new(VortoErrorCode::Infrastructure, "b".to_owned())),
    ];
    match reduce_results(mixed) {
        VortoResult::Failure(e) => {
            assert_eq!(e.code, 4);
            assert_eq!(
                e.message,
                "[Validation] code: 2 message: [TeamSize] a, code: 1000 message: [Infrastructure] b"
            );
        }
        VortoResult::Success(_) => panic!("expected a failure"),
    }
}
