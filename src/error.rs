use vstd::prelude::*;
use vstd::string::StringExecFns;

verus! {

/// The kinds of failure that the library reports.
#[derive(Debug, Clone, Copy, PartialEq, Eq, Structural)]
pub enum VortoErrorCode {
    Timestamp,
    TeamSize,
    NotFound,
    Validation,
    ActiveGame,
    ExpiredGame,
    TooManyWords,
    InvalidGameToken,
    InvalidLoginOrPassword,
    Infrastructure,
}

/// The stable numeric value of each error kind.
pub open spec fn code_value(c: VortoErrorCode) -> i32 {
    match c {
        VortoErrorCode::Timestamp => 1,
        VortoErrorCode::TeamSize => 2,
        VortoErrorCode::NotFound => 3,
        VortoErrorCode::Validation => 4,
        VortoErrorCode::ActiveGame => 5,
        VortoErrorCode::ExpiredGame => 6,
        VortoErrorCode::TooManyWords => 7,
        VortoErrorCode::InvalidGameToken => 8,
        VortoErrorCode::InvalidLoginOrPassword => 9,
        VortoErrorCode::Infrastructure => 1000,
    }
}

/// The name of each error kind, as it appears in messages.
pub open spec fn code_name(c: VortoErrorCode) -> Seq<char> {
    match c {
        VortoErrorCode::Timestamp => "Timestamp"@,
        VortoErrorCode::TeamSize => "TeamSize"@,
        VortoErrorCode::NotFound => "NotFound"@,
        VortoErrorCode::Validation => "Validation"@,
        VortoErrorCode::ActiveGame => "ActiveGame"@,
        VortoErrorCode::ExpiredGame => "ExpiredGame"@,
        VortoErrorCode::TooManyWords => "TooManyWords"@,
        VortoErrorCode::InvalidGameToken => "InvalidGameToken"@,
        VortoErrorCode::InvalidLoginOrPassword => "InvalidLoginOrPassword"@,
        VortoErrorCode::Infrastructure => "Infrastructure"@,
    }
}

impl VortoErrorCode {
    pub fn value(&self) -> (r: i32)
        ensures
            r == code_value(*self),
    {
        match self {
            VortoErrorCode::Timestamp => 1,
            VortoErrorCode::TeamSize => 2,
            VortoErrorCode::NotFound => 3,
            VortoErrorCode::Validation => 4,
            VortoErrorCode::ActiveGame => 5,
            VortoErrorCode::ExpiredGame => 6,
            VortoErrorCode::TooManyWords => 7,
            VortoErrorCode::InvalidGameToken => 8,
            VortoErrorCode::InvalidLoginOrPassword => 9,
            VortoErrorCode::Infrastructure => 1000,
        }
    }

    pub fn name(&self) -> (r: &'static str)
        ensures
            r@ == code_name(*self),
    {
        match self {
            VortoErrorCode::Timestamp => "Timestamp",
            VortoErrorCode::TeamSize => "TeamSize",
            VortoErrorCode::NotFound => "NotFound",
            VortoErrorCode::Validation => "Validation",
            VortoErrorCode::ActiveGame => "ActiveGame",
            VortoErrorCode::ExpiredGame => "ExpiredGame",
            VortoErrorCode::TooManyWords => "TooManyWords",
            VortoErrorCode::InvalidGameToken => "InvalidGameToken",
            VortoErrorCode::InvalidLoginOrPassword => "InvalidLoginOrPassword",
            VortoErrorCode::Infrastructure => "Infrastructure",
        }
    }
}

/// A failure: its numeric code and a message that starts with the kind's name.
#[derive(Debug, Clone)]
pub struct VortoError {
    pub code: i32,
    pub message: String,
}

/// The message of an error of kind `c` whose detail is `detail`: `[Kind] detail`.
pub open spec fn error_message(c: VortoErrorCode, detail: Seq<char>) -> Seq<char> {
    "["@ + code_name(c) + "] "@ + detail
}

impl VortoError {
    pub fn new(error_code: VortoErrorCode, message: String) -> (r: Self)
        ensures
            r.code == code_value(error_code),
            r.message@ == error_message(error_code, message@),
    {
        let mut text = String::from_str("[");
        text.append(error_code.name());
        text.append("] ");
        text.append(message.as_str());
        VortoError { code: error_code.value(), message: text }
    }

    /// Whether this error is of kind `c`.
    pub open spec fn has_code(&self, c: VortoErrorCode) -> bool {
        self.code == code_value(c)
    }
}

/// The outcome of a fallible operation of the library.
#[derive(Debug)]
pub enum VortoResult<T> {
    Success(T),
    Failure(VortoError),
}

impl<T> VortoResult<T> {
    pub open spec fn spec_is_ok(&self) -> bool {
        self is Success
    }

    pub fn is_ok(&self) -> (r: bool)
        ensures
            r == self.spec_is_ok(),
    {
        match self {
            VortoResult::Success(_) => true,
            _ => false,
        }
    }

    pub fn is_err(&self) -> (r: bool)
        ensures
            r == !self.spec_is_ok(),
    {
        !self.is_ok()
    }

    pub fn unwrap(&self) -> (r: &T)
        requires
            self.spec_is_ok(),
        ensures
            *r == self->Success_0,
    {
        match self {
            VortoResult::Success(data) => data,
            VortoResult::Failure(_) => unreached(),
        }
    }

    pub fn expect(&self, message: &'static str) -> (r: &T)
        requires
            self.spec_is_ok(),
        ensures
            *r == self->Success_0,
    {
        match self {
            VortoResult::Success(data) => data,
            VortoResult::Failure(_) => unreached(),
        }
    }
}

} // verus!
