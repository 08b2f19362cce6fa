//! Response status codes.

use crate::number::{decimal, decimal_chars};
use crate::text::string_of;
use vstd::prelude::*;
use vstd::string::*;

verus! {

/// The status of a response: a numeric code with its reason phrase.
#[derive(Debug, Copy, Clone, PartialEq, Eq, Structural)]
pub enum StatusCode {
    /// 200 OK
    Success,
    /// 400 Bad Request
    BadRequest,
    /// 404 Not Found
    NotFound,
    /// 405 Method Not Allowed
    MethodNotAllowed,
    /// 500 Internal Server Error
    ServerError,
}

impl Default for StatusCode {
    fn default() -> (status: StatusCode)
        ensures
            status == StatusCode::Success,
    {
        StatusCode::Success
    }
}

impl StatusCode {
    /// The numeric code of a status.
    pub open spec fn spec_code(self) -> u16 {
        match self {
            StatusCode::Success => 200,
            StatusCode::BadRequest => 400,
            StatusCode::NotFound => 404,
            StatusCode::MethodNotAllowed => 405,
            StatusCode::ServerError => 500,
        }
    }

    /// The reason phrase of a status.
    pub open spec fn spec_reason(self) -> Seq<char> {
        match self {
            StatusCode::Success => "OK"@,
            StatusCode::BadRequest => "Bad Request"@,
            StatusCode::NotFound => "Not Found"@,
            StatusCode::MethodNotAllowed => "Method Not Allowed"@,
            StatusCode::ServerError => "Internal Server Error"@,
        }
    }

    /// A status as it stands in a status line: the code, a space, the reason.
    pub open spec fn spec_text(self) -> Seq<char> {
        decimal(self.spec_code() as nat) + " "@ + self.spec_reason()
    }

    /// The numeric code of the status.
    #[verifier::when_used_as_spec(spec_code)]
    pub fn code(self) -> (code: u16)
        ensures
            code == self.spec_code(),
    {
        match self {
            StatusCode::Success => 200,
            StatusCode::BadRequest => 400,
            StatusCode::NotFound => 404,
            StatusCode::MethodNotAllowed => 405,
            StatusCode::ServerError => 500,
        }
    }

    /// The reason phrase of the status.
    pub fn reason(self) -> (reason: &'static str)
        ensures
            reason@ == self.spec_reason(),
    {
        match self {
            StatusCode::Success => "OK",
            StatusCode::BadRequest => "Bad Request",
            StatusCode::NotFound => "Not Found",
            StatusCode::MethodNotAllowed => "Method Not Allowed",
            StatusCode::ServerError => "Internal Server Error",
        }
    }

    /// The text of a status, such as `404 Not Found`.
    pub fn text(self) -> (text: String)
        ensures
            text@ == self.spec_text(),
    {
        let digits = decimal_chars(self.code() as u64);
        let mut text = string_of(digits.as_slice());
        text.append(" ");
        text.append(self.reason());
        text
    }
}

} // verus!
