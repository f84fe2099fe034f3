//! The errors of deserializing VDF text.
use vstd::prelude::*;

use crate::strings::push_str;

verus! {

/// The errors that can be met while deserializing VDF text.
#[derive(Clone, Debug, PartialEq, Eq)]
pub enum Error {
    Message(String),
    Parse(crate::error::Error),
    EofWhileParsingAny,
    EofWhileParsingKey,
    EofWhileParsingValue,
    EofWhileParsingKeyOrValue,
    EofWhileParsingObject,
    EofWhileParsingSequence,
    ExpectedObjectStart,
    ExpectedSomeValue,
    ExpectedSomeNonSeqValue,
    ExpectedSomeIdent,
    InvalidBoolean,
    InvalidChar,
    InvalidNumber,
    TrailingTokens,
    UnexpectedEndOfObject,
    UnexpectedEndOfSequence,
    Unsupported(&'static str),
    InvalidTokenStream,
}

/// The message that describes an error.
pub open spec fn error_text(e: Error) -> Seq<char> {
    match e {
        Error::Message(m) => m@,
        Error::Parse(_) => "Failed parsing VDF text"@,
        Error::EofWhileParsingAny => "EOF while parsing unknown type"@,
        Error::EofWhileParsingKey => "EOF while parsing key"@,
        Error::EofWhileParsingValue => "EOF while parsing a value"@,
        Error::EofWhileParsingKeyOrValue => "EOF while parsing key or value"@,
        Error::EofWhileParsingObject => "EOF while parsing an object"@,
        Error::EofWhileParsingSequence => "EOF while parsing a sequence"@,
        Error::ExpectedObjectStart => "Expected a valid token for object start"@,
        Error::ExpectedSomeValue => "Expected some valid value"@,
        Error::ExpectedSomeNonSeqValue => "Expected a non-sequence value"@,
        Error::ExpectedSomeIdent => "Expected some valid ident"@,
        Error::InvalidBoolean => "Tried parsing an invalid boolean"@,
        Error::InvalidChar => "Tried parsing an invalid char"@,
        Error::InvalidNumber => "Tried parsing an invalid number"@,
        Error::TrailingTokens => "Tokens remain after deserializing"@,
        Error::UnexpectedEndOfObject => "Unexpected end of object"@,
        Error::UnexpectedEndOfSequence => "Unexpected end of sequence"@,
        Error::Unsupported(t) => "Tried using unsupported type: "@ + t@,
        Error::InvalidTokenStream => "Invalid token stream"@,
    }
}

impl Error {
    /// The message that describes the error.
    pub fn message(&self) -> (r: String)
        ensures
            r@ == error_text(*self),
    {
        match self {
            Error::Message(m) => m.clone(),
            Error::Parse(_) => "Failed parsing VDF text".to_owned(),
            Error::EofWhileParsingAny => "EOF while parsing unknown type".to_owned(),
            Error::EofWhileParsingKey => "EOF while parsing key".to_owned(),
            Error::EofWhileParsingValue => "EOF while parsing a value".to_owned(),
            Error::EofWhileParsingKeyOrValue => "EOF while parsing key or value".to_owned(),
            Error::EofWhileParsingObject => "EOF while parsing an object".to_owned(),
            Error::EofWhileParsingSequence => "EOF while parsing a sequence".to_owned(),
            Error::ExpectedObjectStart => "Expected a valid token for object start".to_owned(),
            Error::ExpectedSomeValue => "Expected some valid value".to_owned(),
            Error::ExpectedSomeNonSeqValue => "Expected a non-sequence value".to_owned(),
            Error::ExpectedSomeIdent => "Expected some valid ident".to_owned(),
            Error::InvalidBoolean => "Tried parsing an invalid boolean".to_owned(),
            Error::InvalidChar => "Tried parsing an invalid char".to_owned(),
            Error::InvalidNumber => "Tried parsing an invalid number".to_owned(),
            Error::TrailingTokens => "Tokens remain after deserializing".to_owned(),
            Error::UnexpectedEndOfObject => "Unexpected end of object".to_owned(),
            Error::UnexpectedEndOfSequence => "Unexpected end of sequence".to_owned(),
            Error::Unsupported(t) => {
                let mut s = "Tried using unsupported type: ".to_owned();
                push_str(&mut s, t);
                s
            },
            Error::InvalidTokenStream => "Invalid token stream".to_owned(),
        }
    }
}

impl From<crate::error::Error> for Error {
    /// A failed parse of the VDF text.
    fn from(e: crate::error::Error) -> (r: Error)
        ensures
            r == Error::Parse(e),
    {
        Error::Parse(e)
    }
}

impl vstd::std_specs::convert::FromSpecImpl<crate::error::Error> for Error {
    open spec fn obeys_from_spec() -> bool {
        true
    }

    open spec fn from_spec(e: crate::error::Error) -> Error {
        Error::Parse(e)
    }
}

} // verus!
