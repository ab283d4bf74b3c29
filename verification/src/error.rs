//! The ways in which reading a document fails.

use vstd::prelude::*;

verus! {

/// Why an operation of the parser or of the decoder failed.
#[derive(Debug, Clone, Copy, PartialEq, Eq, Structural)]
pub enum Error {
    /// The input ended where a document may end: a tag was expected at the
    /// top level and no byte was left.
    Eof,
    /// The input breaks the framing of the format, or the parser was advanced
    /// after it had already failed.
    InvalidParserStateError,
    /// A typed accessor was used on an event of another type, or a tag
    /// carries an identifier that the format does not define.
    InvalidTagTypeError,
    /// The bytes of a string are not valid UTF-8.
    FromUtf8Error,
}

/// `std::string::FromUtf8Error`, the error of `String::from_utf8`, carried as
/// an opaque value.
#[verifier::external_type_specification]
#[verifier::external_body]
pub struct ExFromUtf8Error(std::string::FromUtf8Error);

impl From<std::string::FromUtf8Error> for Error {
    fn from(e: std::string::FromUtf8Error) -> (r: Error) {
        Error::FromUtf8Error
    }
}

impl vstd::std_specs::convert::FromSpecImpl<std::string::FromUtf8Error> for Error {
    open spec fn obeys_from_spec() -> bool {
        true
    }

    open spec fn from_spec(e: std::string::FromUtf8Error) -> Error {
        Error::FromUtf8Error
    }
}

} // verus!
