//! Taking an object, key after key, from the tokens of a deserializer.
use vstd::prelude::*;

use crate::de::{Deserializer, Error};
use crate::tokens::{head, Token, TokenV};

verus! {

/// The number of key tokens at the start of `s`.
pub open spec fn leading_keys(s: Seq<TokenV>) -> nat
    decreases s.len(),
{
    if s.len() > 0 && s[0] is Key {
        1 + leading_keys(s.drop_first())
    } else {
        0
    }
}

proof fn lemma_leading_keys_len(s: Seq<TokenV>)
    ensures
        leading_keys(s) <= s.len(),
    decreases s.len(),
{
    if s.len() > 0 && s[0] is Key {
        lemma_leading_keys_len(s.drop_first());
    }
}

proof fn lemma_leading_keys_step(s: Seq<TokenV>)
    requires
        s.len() > 0,
        s[0] is Key,
    ensures
        s.skip(leading_keys(s) as int) =~= s.drop_first().skip(
            leading_keys(s.drop_first()) as int,
        ),
{
    lemma_leading_keys_len(s.drop_first());
}

/// An object whose opening token was taken; what remains of it is taken by
/// the deserializer that opened it.
pub struct ObjEater;

impl ObjEater {
    /// Opens an object: skips any keys (the top level key, when the whole
    /// text is taken as one map), then takes the opening token.
    pub fn try_new(de: &mut Deserializer) -> (r: Result<ObjEater, Error>)
        ensures
            ({
                let rest = old(de)@.skip(leading_keys(old(de)@) as int);
                match head(rest) {
                    Some(TokenV::ObjBegin) => r is Ok && final(de)@ == rest.drop_first(),
                    Some(_) => r == Err::<ObjEater, Error>(Error::ExpectedObjectStart)
                        && final(de)@ == rest.drop_first(),
                    None => r == Err::<ObjEater, Error>(Error::EofWhileParsingObject)
                        && final(de)@ == rest,
                }
            }),
    {
        let ghost orig = de@;
        loop
            invariant
                de@.skip(leading_keys(de@) as int) == orig.skip(leading_keys(orig) as int),
            ensures
                de@.skip(leading_keys(de@) as int) == orig.skip(leading_keys(orig) as int),
                leading_keys(de@) == 0,
            decreases de@.len(),
        {
            let is_key = match de.peek() {
                Some(Token::Key(_)) => true,
                _ => false,
            };
            if !is_key {
                break;
            }
            proof {
                lemma_leading_keys_step(de@);
            }
            de.next();
        }
        assert(de@.skip(0) =~= de@);
        match de.next() {
            Some(Token::ObjBegin) => Ok(ObjEater),
            Some(_) => Err(Error::ExpectedObjectStart),
            None => Err(Error::EofWhileParsingObject),
        }
    }

    /// Looks for the next key of the object: `Ok(true)` when a key comes
    /// next (it stays for the key's own deserializing), `Ok(false)` when the
    /// object ends (its closing token is taken).
    pub fn next_key(&self, de: &mut Deserializer) -> (r: Result<bool, Error>)
        ensures
            match head(old(de)@) {
                Some(TokenV::Key(_)) => r == Ok::<bool, Error>(true) && final(de)@ == old(de)@,
                Some(TokenV::ObjEnd) => r == Ok::<bool, Error>(false) && final(de)@ == old(de)@.drop_first(),
                Some(_) => r == Err::<bool, Error>(Error::ExpectedSomeIdent) && final(de)@ == old(de)@,
                None => r == Err::<bool, Error>(Error::EofWhileParsingObject) && final(de)@ == old(de)@,
            },
    {
        match de.peek() {
            Some(Token::Key(_)) => Ok(true),
            Some(Token::ObjEnd) => {
                de.next();
                Ok(false)
            },
            Some(_) => Err(Error::ExpectedSomeIdent),
            None => Err(Error::EofWhileParsingObject),
        }
    }

    /// Checks that a value comes next, for the value of the key just taken.
    pub fn next_value(&self, de: &Deserializer) -> (r: Result<(), Error>)
        ensures
            r == if head(de@) matches Some(TokenV::ObjBegin) || head(de@) matches Some(
                TokenV::SeqBegin,
            ) || head(de@) matches Some(TokenV::Str(_)) {
                Ok::<(), Error>(())
            } else {
                Err(Error::ExpectedSomeValue)
            },
    {
        if de.peek_is_value() {
            Ok(())
        } else {
            Err(Error::ExpectedSomeValue)
        }
    }
}

} // verus!
