use vstd::prelude::*;

use crate::common::{failures, reduce_results, successes, validate_fn};
use crate::enums::{WordDefinitionStatus, WordLoadStatus, WordStatus};
use crate::error::{VortoError, VortoErrorCode, VortoResult};
use crate::word_definition::{self, definition_len_ok, WordDefinition};

verus! {

/// A vocabulary entry: a short label for a usage domain, and its full name.
#[derive(Debug, Clone)]
pub struct Voc {
    pub id: i32,
    pub short: String,
    pub full: String,
}

/// A catalog word. `timestamp`, in seconds since the Unix epoch, marks its
/// last change and guards against concurrent edits.
#[derive(Debug, Clone)]
pub struct Word {
    pub id: i32,
    pub body: String,
    pub status: WordStatus,
    pub is_edited_after_load: bool,
    pub load_status: WordLoadStatus,
    pub difficulty: i32,
    pub timestamp: i64,
}

/// A definition as an editor submits it.
#[derive(Debug, Clone)]
pub struct WordDefinitionDTO {
    pub definition: String,
    pub status: WordDefinitionStatus,
    pub voc_id: Option<i32>,
}

/// Whether `s` holds a character other than a line feed.
pub open spec fn has_line_char(s: Seq<char>) -> bool {
    exists|i: int| 0 <= i < s.len() && s[i] != '\n'
}

/// A word body: one to 255 characters other than a line feed, anywhere in it.
pub const BODY_PATTERN: &'static str = ".{1,255}";

/// Relies on regex's `Regex::is_match`. With the pattern `.{1,255}`, whose
/// `.` matches any character but a line feed and which is not anchored, it
/// matches exactly when the text holds such a character. That pattern is
/// valid, so `Regex::new` succeeds.
#[verifier::external_body]
fn regex_is_match(pattern: &str, text: &str) -> (r: bool)
    requires
        pattern@ == BODY_PATTERN@,
    ensures
        r == has_line_char(text@),
{
    regex::Regex::new(pattern).unwrap().is_match(text)
}

pub fn validate_body(body: &str) -> (r: VortoResult<()>)
    ensures
        r is Failure <==> !has_line_char(body@),
        r is Failure ==> r->Failure_0.has_code(VortoErrorCode::Validation),
{
    let matches = regex_is_match(BODY_PATTERN, body);
    let is_failed = || -> (b: bool)
        ensures
            b == !matches,
        { !matches };
    validate_fn(
        is_failed,
        VortoError::new(VortoErrorCode::Validation, String::from_str("Body size 1-255")),
    )
}

/// Fails unless the word's timestamp is the one the editor saw.
pub fn check_timestamp(word_timestamp: i64, new_timestamp: i64) -> (r: VortoResult<()>)
    ensures
        r is Failure <==> word_timestamp != new_timestamp,
        r is Failure ==> r->Failure_0.has_code(VortoErrorCode::Timestamp),
{
    if word_timestamp != new_timestamp {
        VortoResult::Failure(
            VortoError::new(VortoErrorCode::Timestamp, String::from_str("Timestamp is wrong")),
        )
    } else {
        VortoResult::Success(())
    }
}

pub fn new(
    id: i32,
    body: &str,
    status: WordStatus,
    is_edited_after_load: bool,
    load_status: WordLoadStatus,
    difficulty: i32,
    timestamp: i64,
) -> (r: VortoResult<Word>)
    ensures
        r is Failure <==> !has_line_char(body@),
        r is Failure ==> r->Failure_0.has_code(VortoErrorCode::Validation),
        r is Success ==> {
            let w = r->Success_0;
            &&& w.id == id
            &&& w.body@ == body@
            &&& w.status == status
            &&& w.is_edited_after_load == is_edited_after_load
            &&& w.load_status == load_status
            &&& w.difficulty == difficulty
            &&& w.timestamp == timestamp
        },
{
    match validate_body(body) {
        VortoResult::Failure(e) => {
            return VortoResult::Failure(e);
        },
        VortoResult::Success(_) => {},
    }
    VortoResult::Success(
        Word {
            id,
            body: body.to_owned(),
            status,
            is_edited_after_load,
            load_status,
            difficulty,
            timestamp,
        },
    )
}

proof fn lemma_all_succeed<T>(s: Seq<VortoResult<T>>)
    ensures
        failures(s).len() == 0 <==> forall|i: int| 0 <= i < s.len() ==> (#[trigger] s[i]) is Success,
        (forall|i: int| 0 <= i < s.len() ==> (#[trigger] s[i]) is Success) ==> {
            &&& successes(s).len() == s.len()
            &&& forall|i: int| 0 <= i < s.len() ==> #[trigger] successes(s)[i] == s[i]->Success_0
        },
    decreases s.len(),
{
    if s.len() > 0 {
        let init = s.drop_last();
        lemma_all_succeed(init);
        assert forall|i: int| 0 <= i < init.len() implies #[trigger] init[i] == s[i] by {}
        if forall|i: int| 0 <= i < s.len() ==> (#[trigger] s[i]) is Success {
            assert forall|i: int| 0 <= i < init.len() implies (#[trigger] init[i]) is Success by {
                assert(s[i] is Success);
            }
        }
        if failures(s).len() == 0 {
            assert(s.last() is Success);
            assert forall|i: int| 0 <= i < s.len() implies (#[trigger] s[i]) is Success by {
                if i < init.len() {
                    assert(init[i] is Success);
                }
            }
        }
    }
}

/// The word after a change: `load_status` and `timestamp` replaced.
pub open spec fn with_load_status(word: Word, load_status: WordLoadStatus, time: i64) -> Word {
    Word { load_status, timestamp: time, ..word }
}

/// The id of an optional vocabulary entry.
pub open spec fn voc_id_of(voc: Option<Voc>) -> Option<i32> {
    match voc {
        Some(v) => Some(v.id),
        None => None,
    }
}

/// Whether `d` is definition number `order` of word `word_id`, with the given text,
/// status and vocabulary entry, and not yet stored.
pub open spec fn is_definition(
    d: WordDefinition,
    text: Seq<char>,
    status: WordDefinitionStatus,
    order: int,
    word_id: i32,
    voc_id: Option<i32>,
) -> bool {
    &&& d.id == -1
    &&& d.definition@ == text
    &&& d.status == status
    &&& d.order == order
    &&& d.word_id == word_id
    &&& d.voc_id == voc_id
}

fn copy_word(word: &Word) -> (r: Word)
    ensures
        r == *word,
{
    Word {
        id: word.id,
        body: word.body.clone(),
        status: word.status,
        is_edited_after_load: word.is_edited_after_load,
        load_status: word.load_status,
        difficulty: word.difficulty,
        timestamp: word.timestamp,
    }
}

/// Takes in imported definitions. A failed or empty import marks the word
/// loaded with failure; otherwise every definition becomes an inactive
/// definition of the word, numbered in order, and the word is marked loaded.
/// `time` is the moment of the change, in seconds since the Unix epoch.
pub fn load_definitions(
    word: &Word,
    timestamp: i64,
    definitions_result: &VortoResult<Vec<(Option<Voc>, String)>>,
    time: i64,
) -> (r: VortoResult<(Word, Vec<WordDefinition>)>)
    requires
        definitions_result is Success ==> definitions_result->Success_0@.len() <= i32::MAX,
    ensures
        word.timestamp != timestamp ==> r is Failure && r->Failure_0.has_code(
            VortoErrorCode::Timestamp,
        ),
        word.timestamp == timestamp ==> match definitions_result {
            VortoResult::Success(defs) if defs@.len() > 0 => {
                if forall|i: int| 0 <= i < defs@.len() ==> definition_len_ok(#[trigger] defs@[i].1@) {
                    &&& r is Success
                    &&& r->Success_0.0 == with_load_status(*word, WordLoadStatus::Loaded, time)
                    &&& r->Success_0.1@.len() == defs@.len()
                    &&& forall|i: int|
                        0 <= i < defs@.len() ==> is_definition(
                            #[trigger] r->Success_0.1@[i],
                            defs@[i].1@,
                            WordDefinitionStatus::NotActive,
                            i,
                            word.id,
                            voc_id_of(defs@[i].0),
                        )
                } else {
                    r is Failure && r->Failure_0.has_code(VortoErrorCode::Validation)
                }
            },
            _ => {
                &&& r is Success
                &&& r->Success_0.0 == with_load_status(*word, WordLoadStatus::LoadedWithFail, time)
                &&& r->Success_0.1@.len() == 0
            },
        },
{
    match check_timestamp(word.timestamp, timestamp) {
        VortoResult::Failure(e) => {
            return VortoResult::Failure(e);
        },
        VortoResult::Success(_) => {},
    }
    let failed = match definitions_result {
        VortoResult::Success(definitions) => definitions.len() == 0,
        VortoResult::Failure(_) => true,
    };
    if failed {
        let mut new_word = copy_word(word);
        new_word.load_status = WordLoadStatus::LoadedWithFail;
        new_word.timestamp = time;
        return VortoResult::Success((new_word, Vec::new()));
    }
    let definitions = match definitions_result {
        VortoResult::Success(definitions) => definitions,
        VortoResult::Failure(_) => unreached(),
    };
    let mut results: Vec<VortoResult<WordDefinition>> = Vec::new();
    let n = definitions.len();
    for order in 0..n
        invariant
            n == definitions@.len(),
            n <= i32::MAX,
            results@.len() == order,
            forall|i: int|
                0 <= i < order ==> ((#[trigger] results@[i]) is Success <==> definition_len_ok(
                    definitions@[i].1@,
                )),
            forall|i: int|
                0 <= i < order && (#[trigger] results@[i]) is Success ==> is_definition(
                    results@[i]->Success_0,
                    definitions@[i].1@,
                    WordDefinitionStatus::NotActive,
                    i,
                    word.id,
                    voc_id_of(definitions@[i].0),
                ),
    {
        let (voc, def) = &definitions[order];
        let voc_id = match voc {
            Some(v) => Some(v.id),
            None => None,
        };
        results.push(
            word_definition::new(
                -1,
                def.as_str(),
                &WordDefinitionStatus::NotActive,
                order as i32,
                word.id,
                voc_id,
            ),
        );
    }
    let ghost all = results@;
    proof {
        lemma_all_succeed(all);
    }
    match reduce_results(results) {
        VortoResult::Failure(e) => {
            proof {
                let i = choose|i: int| 0 <= i < all.len() && !(all[i] is Success);
                assert(!definition_len_ok(definitions@[i].1@));
            }
            VortoResult::Failure(e)
        },
        VortoResult::Success(word_definitions) => {
            let mut new_word = copy_word(word);
            new_word.load_status = WordLoadStatus::Loaded;
            new_word.timestamp = time;
            proof {
                assert forall|i: int| 0 <= i < n implies definition_len_ok(
                    #[trigger] definitions@[i].1@,
                ) by {
                    assert(all[i] is Success);
                }
                assert forall|i: int| 0 <= i < n implies is_definition(
                    #[trigger] word_definitions@[i],
                    definitions@[i].1@,
                    WordDefinitionStatus::NotActive,
                    i,
                    word.id,
                    voc_id_of(definitions@[i].0),
                ) by {
                    assert(all[i] is Success);
                    assert(word_definitions@[i] == all[i]->Success_0);
                }
            }
            VortoResult::Success((new_word, word_definitions))
        },
    }
}

/// Applies an editor's change: new status and difficulty, and the submitted
/// definitions, numbered in order, in place of the old ones. `time` is the
/// moment of the change, in seconds since the Unix epoch.
pub fn update(
    word: &Word,
    new_status: &WordStatus,
    difficulty: i32,
    timestamp: i64,
    word_definitions: &Vec<WordDefinitionDTO>,
    time: i64,
) -> (r: VortoResult<(Word, Vec<WordDefinition>)>)
    requires
        word_definitions@.len() <= i32::MAX,
    ensures
        word.timestamp != timestamp ==> r is Failure && r->Failure_0.has_code(
            VortoErrorCode::Timestamp,
        ),
        word.timestamp == timestamp ==> if forall|i: int|
            0 <= i < word_definitions@.len() ==> definition_len_ok(
                #[trigger] word_definitions@[i].definition@,
            ) {
            &&& r is Success
            &&& r->Success_0.0 == (Word {
                status: *new_status,
                timestamp: time,
                difficulty,
                ..*word
            })
            &&& r->Success_0.1@.len() == word_definitions@.len()
            &&& forall|i: int|
                0 <= i < word_definitions@.len() ==> is_definition(
                    #[trigger] r->Success_0.1@[i],
                    word_definitions@[i].definition@,
                    word_definitions@[i].status,
                    i,
                    word.id,
                    word_definitions@[i].voc_id,
                )
        } else {
            r is Failure && r->Failure_0.has_code(VortoErrorCode::Validation)
        },
{
    match check_timestamp(word.timestamp, timestamp) {
        VortoResult::Failure(e) => {
            return VortoResult::Failure(e);
        },
        VortoResult::Success(_) => {},
    }
    let mut results: Vec<VortoResult<WordDefinition>> = Vec::new();
    let n = word_definitions.len();
    for order in 0..n
        invariant
            n == word_definitions@.len(),
            n <= i32::MAX,
            results@.len() == order,
            forall|i: int|
                0 <= i < order ==> ((#[trigger] results@[i]) is Success <==> definition_len_ok(
                    word_definitions@[i].definition@,
                )),
            forall|i: int|
                0 <= i < order && (#[trigger] results@[i]) is Success ==> is_definition(
                    results@[i]->Success_0,
                    word_definitions@[i].definition@,
                    word_definitions@[i].status,
                    i,
                    word.id,
                    word_definitions@[i].voc_id,
                ),
    {
        let wd = &word_definitions[order];
        results.push(
            word_definition::new(
                -1,
                wd.definition.as_str(),
                &wd.status,
                order as i32,
                word.id,
                wd.voc_id,
            ),
        );
    }
    let ghost all = results@;
    proof {
        lemma_all_succeed(all);
    }
    match reduce_results(results) {
        VortoResult::Failure(e) => {
            proof {
                let i = choose|i: int| 0 <= i < all.len() && !(all[i] is Success);
                assert(!definition_len_ok(word_definitions@[i].definition@));
            }
            VortoResult::Failure(e)
        },
        VortoResult::Success(new_definitions) => {
            let mut new_word = copy_word(word);
            new_word.status = *new_status;
            new_word.timestamp = time;
            new_word.difficulty = difficulty;
            proof {
                assert forall|i: int| 0 <= i < n implies definition_len_ok(
                    #[trigger] word_definitions@[i].definition@,
                ) by {
                    assert(all[i] is Success);
                }
                assert forall|i: int| 0 <= i < n implies is_definition(
                    #[trigger] new_definitions@[i],
                    word_definitions@[i].definition@,
                    word_definitions@[i].status,
                    i,
                    word.id,
                    word_definitions@[i].voc_id,
                ) by {
                    assert(all[i] is Success);
                    assert(new_definitions@[i] == all[i]->Success_0);
                }
            }
            VortoResult::Success((new_word, new_definitions))
        },
    }
}

} // verus!
