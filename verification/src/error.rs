//! The errors of parsing, rendering and converting token streams.
use vstd::prelude::*;

verus! {

/// Where a token stream stopped making sense.
#[derive(Clone, Copy, Debug, PartialEq, Eq, Structural)]
pub enum TokenContext {
    ExpectedSomeVal,
    ExpectedNonSeqVal,
    EofWhileParsingKey,
    EofWhileParsingVal,
    EofWhileParsingSeq,
    EofWhileParsingObj,
    TrailingTokens,
}

/// All errors of this library.
#[derive(Clone, Copy, Debug, PartialEq, Eq, Structural)]
pub enum Error {
    /// The text is not VDF text when escape sequences are read.
    EscapedParseError,
    /// The text is not VDF text when escape sequences are not read.
    RawParseError,
    /// Rendering failed.
    RenderError,
    /// A raw string can not hold this character.
    RawRenderError { invalid_char: char },
    /// A token stream does not describe a VDF value.
    InvalidTokenStream(TokenContext),
}

impl From<TokenContext> for Error {
    fn from(context: TokenContext) -> (r: Error) {
        Error::InvalidTokenStream(context)
    }
}

impl vstd::std_specs::convert::FromSpecImpl<TokenContext> for Error {
    open spec fn obeys_from_spec() -> bool {
        true
    }

    open spec fn from_spec(context: TokenContext) -> Error {
        Error::InvalidTokenStream(context)
    }
}

/// The error of a failed parse.
pub open spec fn parse_error(escapes: bool) -> Error {
    if escapes {
        Error::EscapedParseError
    } else {
        Error::RawParseError
    }
}

} // verus!
