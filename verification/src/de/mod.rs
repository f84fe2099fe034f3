//! The token-level state of deserializing VDF text: the tokens of the text
//! that remain, and the steps that taking objects, sequences and scalars
//! from them go through.
use std::borrow::Cow;

use vstd::prelude::*;

use crate::order::str_eq;
use crate::de::number::{big, int_text, read_int};
use crate::strings::{chars_of, clone_cow, cow_str};
use crate::text::grammar::vdf_text;
use crate::tokens::{head, tokens_from_vdf, tokens_view, vdf_tokens, Token, TokenV};
use crate::value::{Key, Vdf};

pub mod error;
pub mod map;
pub mod number;
pub mod seq;

pub use error::Error;
pub use map::ObjEater;
pub use seq::{SeqBuilder, SeqEater};

verus! {

/// The tokens that remain to be deserialized.
pub struct Deserializer<'de> {
    /// The remaining tokens, last first.
    rev: Vec<Token<'de>>,
}

impl<'de> View for Deserializer<'de> {
    type V = Seq<TokenV>;

    closed spec fn view(&self) -> Seq<TokenV> {
        Seq::new(self.rev@.len(), |i: int| self.rev@[self.rev@.len() - 1 - i]@)
    }
}

/// The boolean that a string stands for.
pub open spec fn bool_of(s: Seq<char>) -> Option<bool> {
    if s == seq!['0'] {
        Some(false)
    } else if s == seq!['1'] {
        Some(true)
    } else {
        None
    }
}

/// The text of a key or string token.
pub open spec fn text_of(t: Option<TokenV>) -> Option<Seq<char>> {
    match t {
        Some(TokenV::Key(s)) => Some(s),
        Some(TokenV::Str(s)) => Some(s),
        _ => None,
    }
}

/// The integer that `s` writes, for a type that is `signed` or not, when it
/// lies in `min..=max`.
pub open spec fn int_in(s: Seq<char>, signed: bool, min: int, max: int) -> Option<int> {
    match int_text(s, signed) {
        Some(n) => if min <= n <= max {
            Some(n)
        } else {
            None
        },
        None => None,
    }
}

/// What a value of any type that comes next is taken as.
pub enum AnyKind {
    /// An object, taken as a map.
    Object,
    /// A marked sequence.
    Sequence,
    /// A key or a string, taken as a string.
    Text,
}

impl<'de> Deserializer<'de> {
    /// A deserializer over `tokens`.
    fn from_tokens(tokens: Vec<Token<'de>>) -> (r: Deserializer<'de>)
        ensures
            r@ == tokens_view(tokens@),
    {
        let mut tokens = tokens;
        let ghost orig = tokens@;
        let mut rev: Vec<Token<'de>> = Vec::new();
        while tokens.len() > 0
            invariant
                tokens@.len() + rev@.len() == orig.len(),
                tokens@ == orig.take(tokens@.len() as int),
                forall|j: int| 0 <= j < rev@.len() ==> #[trigger] rev@[j] == orig[orig.len() - 1 - j],
            decreases tokens.len(),
        {
            let ghost n = tokens@.len();
            let t = tokens.pop().unwrap();
            rev.push(t);
            assert(tokens@ =~= orig.take(tokens@.len() as int));
        }
        let r = Deserializer { rev };
        assert(r@ =~= tokens_view(orig));
        r
    }

    /// Parses VDF text and gives a deserializer over its tokens, with the top
    /// level key.
    pub fn new_with_key(s: &'de str) -> (r: Result<(Deserializer<'de>, Key<'de>), Error>)
        ensures
            match vdf_text(s@, true) {
                None => r == Err::<(Deserializer, Key), Error>(
                    Error::Parse(crate::error::Error::EscapedParseError),
                ),
                Some(p) => r matches Ok((de, key)) && de@ == vdf_tokens(p.key, p.value) && key@
                    == p.key,
            },
    {
        let vdf = match Vdf::parse(s) {
            Ok(vdf) => vdf,
            Err(e) => return Err(Error::Parse(e)),
        };
        let key = clone_cow(&vdf.key);
        let tokens = tokens_from_vdf(vdf);
        Ok((Deserializer::from_tokens(tokens), key))
    }

    /// Parses VDF text and gives a deserializer over its tokens.
    pub fn from_str(s: &'de str) -> (r: Result<Deserializer<'de>, Error>)
        ensures
            match vdf_text(s@, true) {
                None => r == Err::<Deserializer, Error>(
                    Error::Parse(crate::error::Error::EscapedParseError),
                ),
                Some(p) => r matches Ok(de) && de@ == vdf_tokens(p.key, p.value),
            },
    {
        match Deserializer::new_with_key(s) {
            Ok((de, _)) => Ok(de),
            Err(e) => Err(e),
        }
    }

    /// Whether no token remains.
    pub fn is_empty(&self) -> (r: bool)
        ensures
            r == (self@.len() == 0),
    {
        self.rev.len() == 0
    }

    /// The next token.
    pub fn peek(&self) -> (r: Option<&Token<'de>>)
        ensures
            r is Some == (self@.len() > 0),
            r matches Some(t) ==> t@ == self@[0],
    {
        if self.rev.len() == 0 {
            None
        } else {
            Some(&self.rev[self.rev.len() - 1])
        }
    }

    /// Takes the next token.
    pub fn next(&mut self) -> (r: Option<Token<'de>>)
        ensures
            r is Some == (old(self)@.len() > 0),
            r matches Some(t) ==> t@ == old(self)@[0],
            final(self)@ == if old(self)@.len() > 0 {
                old(self)@.drop_first()
            } else {
                old(self)@
            },
    {
        let r = self.rev.pop();
        assert(self@ =~= if old(self)@.len() > 0 {
            old(self)@.drop_first()
        } else {
            old(self)@
        });
        r
    }

    /// Whether the next token starts a value: a string, an object or a
    /// sequence.
    pub fn peek_is_value(&self) -> (r: bool)
        ensures
            r == (head(self@) matches Some(TokenV::ObjBegin) || head(self@) matches Some(
                TokenV::SeqBegin,
            ) || head(self@) matches Some(TokenV::Str(_))),
    {
        match self.peek() {
            Some(Token::ObjBegin) | Some(Token::SeqBegin) | Some(Token::Str(_)) => true,
            _ => false,
        }
    }

    /// What the next token starts, for a value of any type: `None` at the
    /// end of the tokens or before the end of an object or sequence.
    pub fn peek_any(&self) -> (r: Option<AnyKind>)
        ensures
            r == match head(self@) {
                Some(TokenV::ObjBegin) => Some(AnyKind::Object),
                Some(TokenV::SeqBegin) => Some(AnyKind::Sequence),
                Some(TokenV::Key(_)) => Some(AnyKind::Text),
                Some(TokenV::Str(_)) => Some(AnyKind::Text),
                _ => None::<AnyKind>,
            },
    {
        match self.peek() {
            Some(Token::ObjBegin) => Some(AnyKind::Object),
            Some(Token::SeqBegin) => Some(AnyKind::Sequence),
            Some(Token::Key(_)) | Some(Token::Str(_)) => Some(AnyKind::Text),
            _ => None,
        }
    }

    /// Takes the next token if it is a key or a string, and gives its text.
    pub fn next_key_or_str(&mut self) -> (r: Option<Cow<'de, str>>)
        ensures
            match text_of(head(old(self)@)) {
                Some(s) => r matches Some(x) && x@ == s && final(self)@ == old(self)@.drop_first(),
                None => r is None && final(self)@ == old(self)@,
            },
    {
        match self.peek() {
            Some(Token::Key(_)) | Some(Token::Str(_)) => match self.next() {
                Some(Token::Key(s)) | Some(Token::Str(s)) => Some(s),
                _ => {
                    assert(false);
                    None
                },
            },
            _ => None,
        }
    }

    /// Takes the next token if it is a key or a string, and gives its text;
    /// fails at the end of the tokens or before another token.
    pub fn next_key_or_str_else_eof(&mut self) -> (r: Result<Cow<'de, str>, Error>)
        ensures
            match text_of(head(old(self)@)) {
                Some(s) => r matches Ok(x) && x@ == s && final(self)@ == old(self)@.drop_first(),
                None => r == Err::<Cow<'de, str>, Error>(Error::EofWhileParsingKeyOrValue) && final(self)@ == old(self)@,
            },
    {
        match self.next_key_or_str() {
            Some(s) => Ok(s),
            None => Err(Error::EofWhileParsingKeyOrValue),
        }
    }

    /// Takes a boolean: the string `0` or `1`.
    pub fn next_bool(&mut self) -> (r: Result<bool, Error>)
        ensures
            match text_of(head(old(self)@)) {
                Some(s) => final(self)@ == old(self)@.drop_first() && match bool_of(s) {
                    Some(b) => r == Ok::<bool, Error>(b),
                    None => r == Err::<bool, Error>(Error::InvalidBoolean),
                },
                None => r == Err::<bool, Error>(Error::EofWhileParsingKeyOrValue) && final(self)@
                    == old(self)@,
            },
    {
        let val = match self.next_key_or_str_else_eof() {
            Ok(v) => v,
            Err(e) => return Err(e),
        };
        proof {
            reveal_strlit("0");
            reveal_strlit("1");
            assert("0"@ =~= seq!['0']);
            assert("1"@ =~= seq!['1']);
        }
        if str_eq(cow_str(&val), "0") {
            Ok(false)
        } else if str_eq(cow_str(&val), "1") {
            Ok(true)
        } else {
            Err(Error::InvalidBoolean)
        }
    }

    /// Takes an integer of `min..=max`, written in decimal.
    fn next_int(&mut self, signed: bool, min: i128, max: i128) -> (r: Result<i128, Error>)
        requires
            -big() < min <= max < big(),
        ensures
            match text_of(head(old(self)@)) {
                Some(s) => final(self)@ == old(self)@.drop_first() && match int_in(s, signed, min as int, max as int) {
                    Some(n) => r == Ok::<i128, Error>(n as i128),
                    None => r == Err::<i128, Error>(Error::InvalidNumber),
                },
                None => r == Err::<i128, Error>(Error::EofWhileParsingKeyOrValue) && final(self)@ == old(self)@,
            },
    {
        let s = match self.next_key_or_str_else_eof() {
            Ok(v) => v,
            Err(e) => return Err(e),
        };
        match read_int(cow_str(&s), signed) {
            Some(n) => if min <= n && n <= max {
                Ok(n)
            } else {
                Err(Error::InvalidNumber)
            },
            None => Err(Error::InvalidNumber),
        }
    }

    /// Takes an `i8`, written in decimal.
    pub fn next_i8(&mut self) -> (r: Result<i8, Error>)
        ensures
            match text_of(head(old(self)@)) {
                Some(s) => final(self)@ == old(self)@.drop_first() && match int_in(s, true, i8::MIN as int, i8::MAX as int) {
                    Some(n) => r == Ok::<i8, Error>(n as i8),
                    None => r == Err::<i8, Error>(Error::InvalidNumber),
                },
                None => r == Err::<i8, Error>(Error::EofWhileParsingKeyOrValue) && final(self)@ == old(self)@,
            },
    {
        match self.next_int(true, i8::MIN as i128, i8::MAX as i128) {
            Ok(n) => Ok(n as i8),
            Err(e) => Err(e),
        }
    }

    /// Takes an `i16`, written in decimal.
    pub fn next_i16(&mut self) -> (r: Result<i16, Error>)
        ensures
            match text_of(head(old(self)@)) {
                Some(s) => final(self)@ == old(self)@.drop_first() && match int_in(s, true, i16::MIN as int, i16::MAX as int) {
                    Some(n) => r == Ok::<i16, Error>(n as i16),
                    None => r == Err::<i16, Error>(Error::InvalidNumber),
                },
                None => r == Err::<i16, Error>(Error::EofWhileParsingKeyOrValue) && final(self)@ == old(self)@,
            },
    {
        match self.next_int(true, i16::MIN as i128, i16::MAX as i128) {
            Ok(n) => Ok(n as i16),
            Err(e) => Err(e),
        }
    }

    /// Takes an `i32`, written in decimal.
    pub fn next_i32(&mut self) -> (r: Result<i32, Error>)
        ensures
            match text_of(head(old(self)@)) {
                Some(s) => final(self)@ == old(self)@.drop_first() && match int_in(s, true, i32::MIN as int, i32::MAX as int) {
                    Some(n) => r == Ok::<i32, Error>(n as i32),
                    None => r == Err::<i32, Error>(Error::InvalidNumber),
                },
                None => r == Err::<i32, Error>(Error::EofWhileParsingKeyOrValue) && final(self)@ == old(self)@,
            },
    {
        match self.next_int(true, i32::MIN as i128, i32::MAX as i128) {
            Ok(n) => Ok(n as i32),
            Err(e) => Err(e),
        }
    }

    /// Takes an `i64`, written in decimal.
    pub fn next_i64(&mut self) -> (r: Result<i64, Error>)
        ensures
            match text_of(head(old(self)@)) {
                Some(s) => final(self)@ == old(self)@.drop_first() && match int_in(s, true, i64::MIN as int, i64::MAX as int) {
                    Some(n) => r == Ok::<i64, Error>(n as i64),
                    None => r == Err::<i64, Error>(Error::InvalidNumber),
                },
                None => r == Err::<i64, Error>(Error::EofWhileParsingKeyOrValue) && final(self)@ == old(self)@,
            },
    {
        match self.next_int(true, i64::MIN as i128, i64::MAX as i128) {
            Ok(n) => Ok(n as i64),
            Err(e) => Err(e),
        }
    }

    /// Takes an `u8`, written in decimal.
    pub fn next_u8(&mut self) -> (r: Result<u8, Error>)
        ensures
            match text_of(head(old(self)@)) {
                Some(s) => final(self)@ == old(self)@.drop_first() && match int_in(s, false, u8::MIN as int, u8::MAX as int) {
                    Some(n) => r == Ok::<u8, Error>(n as u8),
                    None => r == Err::<u8, Error>(Error::InvalidNumber),
                },
                None => r == Err::<u8, Error>(Error::EofWhileParsingKeyOrValue) && final(self)@ == old(self)@,
            },
    {
        match self.next_int(false, u8::MIN as i128, u8::MAX as i128) {
            Ok(n) => Ok(n as u8),
            Err(e) => Err(e),
        }
    }

    /// Takes an `u16`, written in decimal.
    pub fn next_u16(&mut self) -> (r: Result<u16, Error>)
        ensures
            match text_of(head(old(self)@)) {
                Some(s) => final(self)@ == old(self)@.drop_first() && match int_in(s, false, u16::MIN as int, u16::MAX as int) {
                    Some(n) => r == Ok::<u16, Error>(n as u16),
                    None => r == Err::<u16, Error>(Error::InvalidNumber),
                },
                None => r == Err::<u16, Error>(Error::EofWhileParsingKeyOrValue) && final(self)@ == old(self)@,
            },
    {
        match self.next_int(false, u16::MIN as i128, u16::MAX as i128) {
            Ok(n) => Ok(n as u16),
            Err(e) => Err(e),
        }
    }

    /// Takes an `u32`, written in decimal.
    pub fn next_u32(&mut self) -> (r: Result<u32, Error>)
        ensures
            match text_of(head(old(self)@)) {
                Some(s) => final(self)@ == old(self)@.drop_first() && match int_in(s, false, u32::MIN as int, u32::MAX as int) {
                    Some(n) => r == Ok::<u32, Error>(n as u32),
                    None => r == Err::<u32, Error>(Error::InvalidNumber),
                },
                None => r == Err::<u32, Error>(Error::EofWhileParsingKeyOrValue) && final(self)@ == old(self)@,
            },
    {
        match self.next_int(false, u32::MIN as i128, u32::MAX as i128) {
            Ok(n) => Ok(n as u32),
            Err(e) => Err(e),
        }
    }

    /// Takes an `u64`, written in decimal.
    pub fn next_u64(&mut self) -> (r: Result<u64, Error>)
        ensures
            match text_of(head(old(self)@)) {
                Some(s) => final(self)@ == old(self)@.drop_first() && match int_in(s, false, u64::MIN as int, u64::MAX as int) {
                    Some(n) => r == Ok::<u64, Error>(n as u64),
                    None => r == Err::<u64, Error>(Error::InvalidNumber),
                },
                None => r == Err::<u64, Error>(Error::EofWhileParsingKeyOrValue) && final(self)@ == old(self)@,
            },
    {
        match self.next_int(false, u64::MIN as i128, u64::MAX as i128) {
            Ok(n) => Ok(n as u64),
            Err(e) => Err(e),
        }
    }

    /// Takes a character: a string of exactly one.
    pub fn next_char(&mut self) -> (r: Result<char, Error>)
        ensures
            match text_of(head(old(self)@)) {
                Some(s) => final(self)@ == old(self)@.drop_first() && if s.len() == 1 {
                    r == Ok::<char, Error>(s[0])
                } else if s.len() == 0 {
                    r == Err::<char, Error>(Error::EofWhileParsingValue)
                } else {
                    r == Err::<char, Error>(Error::InvalidChar)
                },
                None => r == Err::<char, Error>(Error::EofWhileParsingKeyOrValue) && final(self)@
                    == old(self)@,
            },
    {
        let s = match self.next_key_or_str_else_eof() {
            Ok(v) => v,
            Err(e) => return Err(e),
        };
        let cs = chars_of(cow_str(&s));
        if cs.len() == 0 {
            Err(Error::EofWhileParsingValue)
        } else if cs.len() == 1 {
            Ok(cs[0])
        } else {
            Err(Error::InvalidChar)
        }
    }

    /// Takes the string that names the variant of an enum: a string, or a
    /// key when the enum is the key of a map.
    pub fn next_variant(&mut self) -> (r: Result<Cow<'de, str>, Error>)
        ensures
            match text_of(head(old(self)@)) {
                Some(s) => r matches Ok(x) && x@ == s,
                None => r == Err::<Cow<'de, str>, Error>(
                    if old(self)@.len() > 0 {
                        Error::ExpectedSomeValue
                    } else {
                        Error::EofWhileParsingValue
                    },
                ),
            },
            final(self)@ == if old(self)@.len() > 0 {
                old(self)@.drop_first()
            } else {
                old(self)@
            },
    {
        match self.next() {
            Some(Token::Str(s)) | Some(Token::Key(s)) => Ok(s),
            Some(_) => Err(Error::ExpectedSomeValue),
            None => Err(Error::EofWhileParsingValue),
        }
    }

    /// Fails unless all tokens were taken.
    pub fn finish(&self) -> (r: Result<(), Error>)
        ensures
            r == if self@.len() == 0 {
                Ok::<(), Error>(())
            } else {
                Err(Error::TrailingTokens)
            },
    {
        if self.is_empty() {
            Ok(())
        } else {
            Err(Error::TrailingTokens)
        }
    }
}

} // verus!
