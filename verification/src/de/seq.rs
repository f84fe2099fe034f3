//! Taking a sequence, element after element, from the tokens of a
//! deserializer.
//!
//! A key with one value carries no sequence markers, so a sequence may be a
//! lone value; a key with several carries them around its values.
use vstd::prelude::*;

use crate::de::{Deserializer, Error};
use crate::tokens::{head, Token, TokenV};

verus! {

/// Whether a token starts an element of a sequence: a string or an object.
pub open spec fn starts_element(t: Option<TokenV>) -> bool {
    t matches Some(TokenV::ObjBegin) || t matches Some(TokenV::Str(_))
}

/// How a sequence is about to be taken: with a length that the caller
/// expects, or with any length.
pub struct SeqBuilder {
    pub maybe_len: Option<usize>,
}

/// A sequence being taken.
pub enum SeqEater {
    /// A lone value that stands for a sequence of one.
    SingleValue { finished: bool },
    /// A marked sequence of a length that the caller expects.
    SetLength { remaining: usize },
    /// A marked sequence of any length.
    VariableLength,
}

impl SeqBuilder {
    /// A sequence of any length.
    pub fn new() -> (r: SeqBuilder)
        ensures
            r.maybe_len is None,
    {
        SeqBuilder { maybe_len: None }
    }

    /// The same sequence, of the expected length `len`.
    pub fn length(self, len: usize) -> (r: SeqBuilder)
        ensures
            r.maybe_len == Some(len),
    {
        SeqBuilder { maybe_len: Some(len) }
    }

    /// Starts taking the sequence that comes next.
    pub fn try_build(self, de: &mut Deserializer) -> (r: Result<SeqEater, Error>)
        ensures
            match (self.maybe_len, head(old(de)@)) {
                (Some(len), Some(TokenV::SeqBegin)) => if len != 1 {
                    r == Ok::<SeqEater, Error>(SeqEater::SetLength { remaining: len })
                        && final(de)@ == old(de)@.drop_first()
                } else {
                    r == Err::<SeqEater, Error>(Error::TrailingTokens) && final(de)@ == old(de)@
                },
                (None, Some(TokenV::SeqBegin)) => r == Ok::<SeqEater, Error>(
                    SeqEater::VariableLength,
                ) && final(de)@ == old(de)@.drop_first(),
                (_, t) => final(de)@ == old(de)@ && if starts_element(t) {
                    r == Ok::<SeqEater, Error>(SeqEater::SingleValue { finished: false })
                } else {
                    r == Err::<SeqEater, Error>(Error::ExpectedSomeValue)
                },
            },
    {
        let is_seq = match de.peek() {
            Some(Token::SeqBegin) => true,
            _ => false,
        };
        if is_seq {
            match self.maybe_len {
                Some(len) => if len != 1 {
                    Ok(SeqEater::new_set_length(de, len))
                } else {
                    Err(Error::TrailingTokens)
                },
                None => Ok(SeqEater::new_variable_length(de)),
            }
        } else {
            match de.peek() {
                Some(Token::ObjBegin) | Some(Token::Str(_)) => Ok(SeqEater::new_single_value()),
                _ => Err(Error::ExpectedSomeValue),
            }
        }
    }
}

impl SeqEater {
    /// Whether another element may be asked for with the tokens `t` left:
    /// a sequence of a set length whose elements were all taken cannot take
    /// one more.
    pub open spec fn can_ask(&self, t: Seq<TokenV>) -> bool {
        !(self matches SeqEater::SetLength { remaining } && remaining == 0 && starts_element(head(t)))
    }

    /// A lone value, taken as a sequence of one.
    pub fn new_single_value() -> (r: SeqEater)
        ensures
            r == (SeqEater::SingleValue { finished: false }),
    {
        SeqEater::SingleValue { finished: false }
    }

    /// A marked sequence of `remaining` elements; takes the opening marker.
    pub fn new_set_length(de: &mut Deserializer, remaining: usize) -> (r: SeqEater)
        requires
            head(old(de)@) == Some(TokenV::SeqBegin),
        ensures
            r == (SeqEater::SetLength { remaining }),
            final(de)@ == old(de)@.drop_first(),
    {
        de.next();
        SeqEater::SetLength { remaining }
    }

    /// A marked sequence of any length; takes the opening marker.
    pub fn new_variable_length(de: &mut Deserializer) -> (r: SeqEater)
        requires
            head(old(de)@) == Some(TokenV::SeqBegin),
        ensures
            r == SeqEater::VariableLength,
            final(de)@ == old(de)@.drop_first(),
    {
        de.next();
        SeqEater::VariableLength
    }

    /// Looks for the next element: `Ok(true)` when one comes next (it stays
    /// for the element's own deserializing), `Ok(false)` when the sequence
    /// ends.
    pub fn next_element(&mut self, de: &mut Deserializer) -> (r: Result<bool, Error>)
        requires
            old(self).can_ask(old(de)@),
        ensures
            match *old(self) {
                SeqEater::SingleValue { finished } => if finished {
                    r == Ok::<bool, Error>(false) && final(de)@ == old(de)@ && *final(self)
                        == *old(self)
                } else {
                    &&& *final(self) == (SeqEater::SingleValue { finished: true })
                    &&& final(de)@ == old(de)@
                    &&& r == if starts_element(head(old(de)@)) {
                        Ok::<bool, Error>(true)
                    } else if old(de)@.len() > 0 {
                        Err(Error::ExpectedSomeValue)
                    } else {
                        Err(Error::EofWhileParsingSequence)
                    }
                },
                SeqEater::SetLength { remaining } => final(de)@ == old(de)@ && if starts_element(
                    head(old(de)@),
                ) {
                    r == Ok::<bool, Error>(true) && *final(self) == (SeqEater::SetLength {
                        remaining: (remaining - 1) as usize,
                    })
                } else {
                    *final(self) == *old(self) && r == match head(old(de)@) {
                        Some(TokenV::SeqEnd) => Err::<bool, Error>(Error::UnexpectedEndOfSequence),
                        Some(_) => Err(Error::ExpectedSomeValue),
                        None => Err(Error::EofWhileParsingSequence),
                    }
                },
                SeqEater::VariableLength => *final(self) == *old(self) && if starts_element(
                    head(old(de)@),
                ) {
                    r == Ok::<bool, Error>(true) && final(de)@ == old(de)@
                } else {
                    match head(old(de)@) {
                        Some(TokenV::SeqEnd) => r == Ok::<bool, Error>(false) && final(de)@ == old(de)@.drop_first(),
                        Some(_) => r == Err::<bool, Error>(Error::ExpectedSomeValue) && final(de)@
                            == old(de)@,
                        None => r == Err::<bool, Error>(Error::EofWhileParsingSequence) && final(de)@ == old(de)@,
                    }
                },
            },
    {
        let starts = match de.peek() {
            Some(Token::ObjBegin) | Some(Token::Str(_)) => true,
            _ => false,
        };
        match self {
            SeqEater::SingleValue { finished } => {
                if *finished {
                    Ok(false)
                } else {
                    *finished = true;
                    if starts {
                        Ok(true)
                    } else if de.is_empty() {
                        Err(Error::EofWhileParsingSequence)
                    } else {
                        Err(Error::ExpectedSomeValue)
                    }
                }
            },
            SeqEater::SetLength { remaining } => {
                if starts {
                    *remaining = *remaining - 1;
                    Ok(true)
                } else {
                    match de.peek() {
                        Some(Token::SeqEnd) => Err(Error::UnexpectedEndOfSequence),
                        Some(_) => Err(Error::ExpectedSomeValue),
                        None => Err(Error::EofWhileParsingSequence),
                    }
                }
            },
            SeqEater::VariableLength => {
                if starts {
                    Ok(true)
                } else {
                    match de.peek() {
                        Some(Token::SeqEnd) => {
                            de.next();
                            Ok(false)
                        },
                        Some(_) => Err(Error::ExpectedSomeValue),
                        None => Err(Error::EofWhileParsingSequence),
                    }
                }
            },
        }
    }

    /// Called after an element was deserialized: the last element of a
    /// sequence of a set length is followed by its closing marker, which is
    /// taken here.
    pub fn element_done(&self, de: &mut Deserializer) -> (r: Result<(), Error>)
        ensures
            if *self == (SeqEater::SetLength { remaining: 0 }) {
                &&& final(de)@ == if old(de)@.len() > 0 {
                    old(de)@.drop_first()
                } else {
                    old(de)@
                }
                &&& r == match head(old(de)@) {
                    Some(TokenV::SeqEnd) => Ok::<(), Error>(()),
                    Some(_) => Err(Error::TrailingTokens),
                    None => Err(Error::EofWhileParsingSequence),
                }
            } else {
                r == Ok::<(), Error>(()) && final(de)@ == old(de)@
            },
    {
        match self {
            SeqEater::SetLength { remaining } => {
                if *remaining == 0 {
                    match de.next() {
                        Some(Token::SeqEnd) => Ok(()),
                        Some(_) => Err(Error::TrailingTokens),
                        None => Err(Error::EofWhileParsingSequence),
                    }
                } else {
                    Ok(())
                }
            },
            _ => Ok(()),
        }
    }
}

} // verus!
