//! The failures of the framework.

use vstd::prelude::*;
use vstd::string::*;

verus! {

/// `std::io::Error`, the cause of a failed read or write. It is carried, and
/// nothing is read from it but its text.
#[verifier::external_type_specification]
#[verifier::external_body]
pub struct ExIoError(std::io::Error);

/// `std::string::FromUtf8Error`, the cause of a failed decoding. It is
/// carried, and nothing is read from it but its text.
#[verifier::external_type_specification]
#[verifier::external_body]
pub struct ExFromUtf8Error(std::string::FromUtf8Error);

/// Why a connection was given up.
#[derive(Debug)]
pub enum FrameworkError {
    /// Reading from or writing to the stream failed, or timed out.
    Io(std::io::Error),
    /// Bytes that should be text are not valid UTF-8.
    Utf(std::string::FromUtf8Error),
    /// The request line or a header line is malformed.
    HeaderParse,
    /// A header's value is not what the header calls for.
    HeaderData,
}

/// The kind of a failure, without its cause.
#[derive(Debug, Copy, Clone, PartialEq, Eq, Structural)]
pub enum ErrorKind {
    Io,
    Utf,
    HeaderParse,
    HeaderData,
}

impl From<std::io::Error> for FrameworkError {
    fn from(e: std::io::Error) -> (error: Self) {
        FrameworkError::Io(e)
    }
}

impl vstd::std_specs::convert::FromSpecImpl<std::io::Error> for FrameworkError {
    open spec fn obeys_from_spec() -> bool {
        true
    }

    open spec fn from_spec(e: std::io::Error) -> Self {
        FrameworkError::Io(e)
    }
}

impl From<std::string::FromUtf8Error> for FrameworkError {
    fn from(e: std::string::FromUtf8Error) -> (error: Self) {
        FrameworkError::Utf(e)
    }
}

impl vstd::std_specs::convert::FromSpecImpl<std::string::FromUtf8Error> for FrameworkError {
    open spec fn obeys_from_spec() -> bool {
        true
    }

    open spec fn from_spec(e: std::string::FromUtf8Error) -> Self {
        FrameworkError::Utf(e)
    }
}

impl FrameworkError {
    /// The kind of the error.
    pub open spec fn spec_kind(&self) -> ErrorKind {
        match self {
            FrameworkError::Io(_) => ErrorKind::Io,
            FrameworkError::Utf(_) => ErrorKind::Utf,
            FrameworkError::HeaderParse => ErrorKind::HeaderParse,
            FrameworkError::HeaderData => ErrorKind::HeaderData,
        }
    }

    /// The kind of the error.
    #[verifier::when_used_as_spec(spec_kind)]
    pub fn kind(&self) -> (kind: ErrorKind)
        ensures
            kind == self.spec_kind(),
    {
        match self {
            FrameworkError::Io(_) => ErrorKind::Io,
            FrameworkError::Utf(_) => ErrorKind::Utf,
            FrameworkError::HeaderParse => ErrorKind::HeaderParse,
            FrameworkError::HeaderData => ErrorKind::HeaderData,
        }
    }

    /// What the message of an error begins with; the two kinds that carry a
    /// cause go on with the cause's own text.
    pub open spec fn prefix(&self) -> Seq<char> {
        match self {
            FrameworkError::Io(_) => "IO Error: "@,
            FrameworkError::Utf(_) => "UTF8 Error: "@,
            FrameworkError::HeaderParse => "Parse header error"@,
            FrameworkError::HeaderData => "Get data from header error"@,
        }
    }

    /// Whether `text` is the message of the error: its prefix, followed for
    /// the two kinds that carry a cause by the text that the cause displays.
    pub open spec fn has_message(&self, text: Seq<char>) -> bool {
        match self {
            FrameworkError::Io(e) => exists|cause: String|
                to_string_from_display_ensures::<std::io::Error>(e, cause) && text
                    == self.prefix() + cause@,
            FrameworkError::Utf(e) => exists|cause: String|
                to_string_from_display_ensures::<std::string::FromUtf8Error>(e, cause) && text
                    == self.prefix() + cause@,
            _ => text == self.prefix(),
        }
    }

    /// The message of an error, for the operator.
    pub fn message(&self) -> (text: String)
        ensures
            self.has_message(text@),
    {
        match self {
            FrameworkError::Io(e) => {
                let cause = e.to_string();
                String::from_str("IO Error: ").concat(cause.as_str())
            },
            FrameworkError::Utf(e) => {
                let cause = e.to_string();
                String::from_str("UTF8 Error: ").concat(cause.as_str())
            },
            FrameworkError::HeaderParse => String::from_str("Parse header error"),
            FrameworkError::HeaderData => String::from_str("Get data from header error"),
        }
    }
}

} // verus!
