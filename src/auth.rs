use vstd::prelude::*;
use vstd::string::{StrSliceExecFns, StringExecFns};

use crate::error::{VortoError, VortoErrorCode};

verus! {

/// What a successful sign-in returns: the administrator's email and a token.
#[derive(Debug, Clone)]
pub struct LoginResponse {
    pub email: String,
    pub token: String,
}

pub open spec fn bearer_prefix() -> Seq<char> {
    "Bearer "@
}

/// The token of an `Authorization` header value: what follows `Bearer `.
pub open spec fn bearer_token(value: Seq<char>) -> Option<Seq<char>> {
    if value.len() >= 7 && value.take(7) == bearer_prefix() {
        Some(value.skip(7))
    } else {
        None
    }
}

/// The bearer token of an `Authorization` header, if the header has one.
pub fn get_jwt_token(authorization: Option<&str>) -> (r: Option<String>)
    ensures
        match authorization {
            Some(value) => match bearer_token(value@) {
                Some(t) => r is Some && r->Some_0@ == t,
                None => r is None,
            },
            None => r is None,
        },
{
    proof {
        reveal_strlit("Bearer ");
        assert(bearer_prefix().len() == 7);
    }
    match authorization {
        Some(value) => {
            let n = value.unicode_len();
            if n >= 7 && crate::enums::same_text(value.substring_char(0, 7), "Bearer ") {
                Some(value.substring_char(7, n).to_owned())
            } else {
                proof {
                    if n >= 7 {
                        assert(value@.subrange(0, 7) =~= value@.take(7));
                    }
                }
                None
            }
        },
        None => None,
    }
}

pub fn invalid_login_or_error() -> (r: VortoError)
    ensures
        r.has_code(VortoErrorCode::InvalidLoginOrPassword),
{
    VortoError::new(
        VortoErrorCode::InvalidLoginOrPassword,
        String::from_str("Invalid login or password"),
    )
}

} // verus!
