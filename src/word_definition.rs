use vstd::prelude::*;

use crate::common::validate_fn;
use crate::enums::WordDefinitionStatus;
use crate::error::{error_message, VortoError, VortoErrorCode, VortoResult};

verus! {

/// One numbered definition of a catalog word, optionally tied to a vocabulary entry.
#[derive(Debug, Clone)]
pub struct WordDefinition {
    pub id: i32,
    pub definition: String,
    pub status: WordDefinitionStatus,
    pub order: i32,
    pub word_id: i32,
    pub voc_id: Option<i32>,
}

/// The length of a text in bytes, as UTF-8; what `str::len` returns.
pub open spec fn utf8_len(s: Seq<char>) -> usize {
    vstd::utf8::encode_utf8(s).len() as usize
}

/// Whether a definition's length, in bytes, lies in 10..=1000.
pub open spec fn definition_len_ok(s: Seq<char>) -> bool {
    10 <= utf8_len(s) <= 1000
}

pub open spec fn definition_error_text() -> Seq<char> {
    "Definition's length should be in range 10-1000"@
}

pub fn validate_definition(definition: &str) -> (r: VortoResult<()>)
    ensures
        r is Failure <==> !definition_len_ok(definition@),
        r is Failure ==> {
            &&& r->Failure_0.has_code(VortoErrorCode::Validation)
            &&& r->Failure_0.message@ == error_message(
                VortoErrorCode::Validation,
                definition_error_text(),
            )
        },
{
    let definition_len = definition.len();
    let is_failed = || -> (b: bool)
        ensures
            b == (definition_len < 10 || definition_len > 1000),
        { definition_len < 10 || definition_len > 1000 };
    validate_fn(
        is_failed,
        VortoError::new(
            VortoErrorCode::Validation,
            String::from_str("Definition's length should be in range 10-1000"),
        ),
    )
}

pub fn new(
    id: i32,
    definition: &str,
    status: &WordDefinitionStatus,
    order: i32,
    word_id: i32,
    voc_id: Option<i32>,
) -> (r: VortoResult<WordDefinition>)
    ensures
        r is Failure <==> !definition_len_ok(definition@),
        r is Failure ==> {
            &&& r->Failure_0.has_code(VortoErrorCode::Validation)
            &&& r->Failure_0.message@ == error_message(
                VortoErrorCode::Validation,
                definition_error_text(),
            )
        },
        r is Success ==> {
            let d = r->Success_0;
            &&& d.id == id
            &&& d.definition@ == definition@
            &&& d.status == *status
            &&& d.order == order
            &&& d.word_id == word_id
            &&& d.voc_id == voc_id
        },
{
    match validate_definition(definition) {
        VortoResult::Failure(e) => {
            return VortoResult::Failure(e);
        },
        VortoResult::Success(_) => {},
    }
    VortoResult::Success(
        WordDefinition {
            id,
            definition: definition.to_owned(),
            status: *status,
            order,
            word_id,
            voc_id,
        },
    )
}

} // verus!
