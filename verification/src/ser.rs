//! What a serializer emits, naive tokens, turned into the token stream or the
//! pair that they describe.
use std::borrow::Cow;

use vstd::prelude::*;

use crate::de::Error;
use crate::tokens::naive::{lemma_rest_of_len, lemma_rest_of_step, rest_of, NaiveToken, NaiveTokenStream, NaiveTokenV};
use crate::tokens::{tokens_view, Token, TokenStream, TokenV};
use crate::value::{Key, lemma_values_view, lemma_values_view_push, obj_insert, values_view, Obj, ObjV, Value, ValueV, Vdf, VdfV};

verus! {

// ---------------------------------------------------------------------------
// Naive tokens into a token stream
// ---------------------------------------------------------------------------

/// A key and its value, their tokens appended to `acc`: the key is a string
/// token.
pub open spec fn key_value_tokens(t: Seq<NaiveTokenV>, acc: Seq<TokenV>) -> Option<
    (Seq<TokenV>, Seq<NaiveTokenV>),
>
    decreases t.len(), 3nat,
{
    if t.len() > 0 && t[0] is Str {
        value_tokens_of(t.drop_first(), acc.push(TokenV::Key(t[0]->Str_0)))
    } else {
        None
    }
}

/// A value, its tokens appended to `acc`: a string, an object, or a
/// sequence of those.
pub open spec fn value_tokens_of(t: Seq<NaiveTokenV>, acc: Seq<TokenV>) -> Option<
    (Seq<TokenV>, Seq<NaiveTokenV>),
>
    decreases t.len(), 2nat,
{
    if t.len() == 0 {
        None
    } else {
        match t[0] {
            NaiveTokenV::Str(s) => Some((acc.push(TokenV::Str(s)), t.drop_first())),
            NaiveTokenV::SeqBegin => seq_rest_tokens(t.drop_first(), acc.push(TokenV::SeqBegin)),
            NaiveTokenV::ObjBegin => obj_rest_tokens(t.drop_first(), acc.push(TokenV::ObjBegin)),
            _ => None,
        }
    }
}

/// The rest of a sequence, up to and with its end marker.
pub open spec fn seq_rest_tokens(t: Seq<NaiveTokenV>, acc: Seq<TokenV>) -> Option<
    (Seq<TokenV>, Seq<NaiveTokenV>),
>
    decreases t.len(), 1nat,
{
    if t.len() > 0 && t[0] is SeqEnd {
        Some((acc.push(TokenV::SeqEnd), t.drop_first()))
    } else {
        match element_tokens(t, acc) {
            None => None,
            Some((a, r)) => if r.len() < t.len() {
                seq_rest_tokens(r, a)
            } else {
                None
            },
        }
    }
}

/// An element of a sequence: a string or an object.
pub open spec fn element_tokens(t: Seq<NaiveTokenV>, acc: Seq<TokenV>) -> Option<
    (Seq<TokenV>, Seq<NaiveTokenV>),
>
    decreases t.len(), 0nat,
{
    if t.len() == 0 {
        None
    } else {
        match t[0] {
            NaiveTokenV::Str(s) => Some((acc.push(TokenV::Str(s)), t.drop_first())),
            NaiveTokenV::ObjBegin => obj_rest_tokens(t.drop_first(), acc.push(TokenV::ObjBegin)),
            _ => None,
        }
    }
}

/// The rest of an object, up to and with its end marker.
pub open spec fn obj_rest_tokens(t: Seq<NaiveTokenV>, acc: Seq<TokenV>) -> Option<
    (Seq<TokenV>, Seq<NaiveTokenV>),
>
    decreases t.len(), 4nat,
{
    if t.len() > 0 && t[0] is ObjEnd {
        Some((acc.push(TokenV::ObjEnd), t.drop_first()))
    } else {
        match key_value_tokens(t, acc) {
            None => None,
            Some((a, r)) => if r.len() < t.len() {
                obj_rest_tokens(r, a)
            } else {
                None
            },
        }
    }
}

/// The token stream that naive tokens describe: one key and its value, and
/// nothing after them.
pub open spec fn naive_stream_tokens(t: Seq<NaiveTokenV>) -> Option<Seq<TokenV>> {
    match key_value_tokens(t, seq![]) {
        Some((a, r)) => if r.len() == 0 {
            Some(a)
        } else {
            None
        },
        None => None,
    }
}

fn push_token<'a>(out: &mut Vec<Token<'a>>, t: Token<'a>)
    ensures
        tokens_view(final(out)@) == tokens_view(old(out)@).push(t@),
{
    let ghost before = out@;
    out.push(t);
    assert(tokens_view(out@) =~= tokens_view(before).push(t@));
}

fn process_key_value<'a>(tokens: &'a Vec<NaiveToken>, pos: usize, out: &mut Vec<Token<'a>>) -> (r: Result<usize, Error>)
    requires
        pos <= tokens.len(),
    ensures
        match key_value_tokens(rest_of(tokens@, pos as int), tokens_view(old(out)@)) {
            None => r is Err,
            Some((a, t)) => r matches Ok(p) && pos < p <= tokens.len() && tokens_view(final(out)@) == a
                && rest_of(tokens@, p as int) == t,
        },
    decreases tokens.len() - pos, 3nat,
{
    if pos == tokens.len() {
        return Err(Error::InvalidTokenStream);
    }
    proof {
        lemma_rest_of_step(tokens@, pos as int);
    }
    match &tokens[pos] {
        NaiveToken::Str(s) => {
            push_token(out, Token::Key(Cow::Borrowed(s.as_str())));
            process_value(tokens, pos + 1, out)
        },
        _ => Err(Error::InvalidTokenStream),
    }
}

fn process_value<'a>(tokens: &'a Vec<NaiveToken>, pos: usize, out: &mut Vec<Token<'a>>) -> (r: Result<usize, Error>)
    requires
        pos <= tokens.len(),
    ensures
        match value_tokens_of(rest_of(tokens@, pos as int), tokens_view(old(out)@)) {
            None => r is Err,
            Some((a, t)) => r matches Ok(p) && pos < p <= tokens.len() && tokens_view(final(out)@) == a
                && rest_of(tokens@, p as int) == t,
        },
    decreases tokens.len() - pos, 2nat,
{
    if pos == tokens.len() {
        return Err(Error::InvalidTokenStream);
    }
    proof {
        lemma_rest_of_step(tokens@, pos as int);
    }
    match &tokens[pos] {
        NaiveToken::Str(s) => {
            push_token(out, Token::Str(Cow::Borrowed(s.as_str())));
            Ok(pos + 1)
        },
        NaiveToken::SeqBegin => {
            push_token(out, Token::SeqBegin);
            let mut p = pos + 1;
            loop
                invariant_except_break
                    value_tokens_of(rest_of(tokens@, pos as int), tokens_view(old(out)@))
                        == seq_rest_tokens(rest_of(tokens@, p as int), tokens_view(out@)),
                invariant
                    pos < p <= tokens.len(),
                ensures
                    pos < p <= tokens.len(),
                    value_tokens_of(rest_of(tokens@, pos as int), tokens_view(old(out)@)) == Some(
                        (tokens_view(out@), rest_of(tokens@, p as int)),
                    ),
                decreases tokens.len() - p,
            {
                if p < tokens.len() {
                    proof {
                        lemma_rest_of_step(tokens@, p as int);
                    }
                    if let NaiveToken::SeqEnd = &tokens[p] {
                        push_token(out, Token::SeqEnd);
                        p += 1;
                        break;
                    }
                }
                proof {
                    lemma_rest_of_len(tokens@, p as int);
                }
                let q = match process_element(tokens, p, out) {
                    Ok(q) => q,
                    Err(e) => return Err(e),
                };
                proof {
                    lemma_rest_of_len(tokens@, q as int);
                }
                p = q;
            }
            Ok(p)
        },
        NaiveToken::ObjBegin => {
            push_token(out, Token::ObjBegin);
            process_obj(tokens, pos + 1, out)
        },
        _ => Err(Error::InvalidTokenStream),
    }
}

fn process_element<'a>(tokens: &'a Vec<NaiveToken>, pos: usize, out: &mut Vec<Token<'a>>) -> (r: Result<usize, Error>)
    requires
        pos <= tokens.len(),
    ensures
        match element_tokens(rest_of(tokens@, pos as int), tokens_view(old(out)@)) {
            None => r is Err,
            Some((a, t)) => r matches Ok(p) && pos < p <= tokens.len() && tokens_view(final(out)@) == a
                && rest_of(tokens@, p as int) == t,
        },
    decreases tokens.len() - pos, 0nat,
{
    if pos == tokens.len() {
        return Err(Error::InvalidTokenStream);
    }
    proof {
        lemma_rest_of_step(tokens@, pos as int);
    }
    match &tokens[pos] {
        NaiveToken::Str(s) => {
            push_token(out, Token::Str(Cow::Borrowed(s.as_str())));
            Ok(pos + 1)
        },
        NaiveToken::ObjBegin => {
            push_token(out, Token::ObjBegin);
            process_obj(tokens, pos + 1, out)
        },
        _ => Err(Error::InvalidTokenStream),
    }
}

fn process_obj<'a>(tokens: &'a Vec<NaiveToken>, pos: usize, out: &mut Vec<Token<'a>>) -> (r: Result<usize, Error>)
    requires
        pos <= tokens.len(),
    ensures
        match obj_rest_tokens(rest_of(tokens@, pos as int), tokens_view(old(out)@)) {
            None => r is Err,
            Some((a, t)) => r matches Ok(p) && pos < p <= tokens.len() && tokens_view(final(out)@) == a
                && rest_of(tokens@, p as int) == t,
        },
    decreases tokens.len() - pos, 4nat,
{
    let mut p = pos;
    loop
        invariant_except_break
            obj_rest_tokens(rest_of(tokens@, pos as int), tokens_view(old(out)@))
                == obj_rest_tokens(rest_of(tokens@, p as int), tokens_view(out@)),
        invariant
            pos <= p <= tokens.len(),
        ensures
            pos < p <= tokens.len(),
            obj_rest_tokens(rest_of(tokens@, pos as int), tokens_view(old(out)@)) == Some(
                (tokens_view(out@), rest_of(tokens@, p as int)),
            ),
        decreases tokens.len() - p,
    {
        if p < tokens.len() {
            proof {
                lemma_rest_of_step(tokens@, p as int);
            }
            if let NaiveToken::ObjEnd = &tokens[p] {
                push_token(out, Token::ObjEnd);
                p += 1;
                break;
            }
        }
        proof {
            lemma_rest_of_len(tokens@, p as int);
        }
        let q = match process_key_value(tokens, p, out) {
            Ok(q) => q,
            Err(e) => return Err(e),
        };
        proof {
            lemma_rest_of_len(tokens@, q as int);
        }
        p = q;
    }
    Ok(p)
}

/// The token stream that naive tokens describe, with keys told from
/// strings.
pub fn token_stream_from_naive<'a>(naive_token_stream: &'a NaiveTokenStream) -> (r: Result<TokenStream<'a>, Error>)
    ensures
        match naive_stream_tokens(naive_token_stream@) {
            Some(ts) => r matches Ok(x) && x@ == ts,
            None => r == Err::<TokenStream, Error>(Error::InvalidTokenStream),
        },
{
    let tokens = &naive_token_stream.0;
    assert(rest_of(tokens@, 0) =~= naive_token_stream@);
    let mut out: Vec<Token<'a>> = Vec::new();
    assert(tokens_view(out@) =~= seq![]);
    let p = match process_key_value(tokens, 0, &mut out) {
        Ok(p) => p,
        Err(_) => return Err(Error::InvalidTokenStream),
    };
    proof {
        lemma_rest_of_len(tokens@, p as int);
    }
    if p == tokens.len() {
        Ok(TokenStream(out))
    } else {
        Err(Error::InvalidTokenStream)
    }
}

impl<'a> TryFrom<&'a NaiveTokenStream> for TokenStream<'a> {
    type Error = Error;

    /// The token stream that the naive tokens describe.
    fn try_from(naive_token_stream: &'a NaiveTokenStream) -> (r: Result<TokenStream<'a>, Error>)
        ensures
            match naive_stream_tokens(naive_token_stream@) {
                Some(ts) => r matches Ok(x) && x@ == ts,
                None => r == Err::<TokenStream, Error>(Error::InvalidTokenStream),
            },
    {
        token_stream_from_naive(naive_token_stream)
    }
}

impl<'a> vstd::std_specs::convert::TryFromSpecImpl<&'a NaiveTokenStream> for TokenStream<'a> {
    /// The conversion is stated by the `ensures` of `try_from`, over views.
    open spec fn obeys_try_from_spec() -> bool {
        false
    }

    open spec fn try_from_spec(naive_token_stream: &'a NaiveTokenStream) -> Result<TokenStream, Error> {
        arbitrary()
    }
}

// ---------------------------------------------------------------------------
// Naive tokens into a pair
// ---------------------------------------------------------------------------

/// Why naive tokens describe no pair.
pub enum NaiveError {
    /// A key was expected where this token (or the end) stands.
    ExpectedKey(Option<NaiveTokenV>),
    ExpectedSomeValue,
    ExpectedSomeNonSeqValue,
    ExpectedObjectStart,
    TrailingTokens,
    /// The top level key has no value.
    NoValue,
}

/// The message given when a key was expected where `t` stands.
pub open spec fn expected_key_text(t: Option<NaiveTokenV>) -> Seq<char> {
    match t {
        None => "Expected key, found: None"@,
        Some(NaiveTokenV::ObjEnd) => "Expected key, found: Some(ObjEnd)"@,
        Some(NaiveTokenV::SeqBegin) => "Expected key, found: Some(SeqBegin)"@,
        Some(NaiveTokenV::SeqEnd) => "Expected key, found: Some(SeqEnd)"@,
        Some(NaiveTokenV::Null) => "Expected key, found: Some(Null)"@,
        _ => "Expected key"@,
    }
}

/// The message given when the top level key has no value.
pub open spec fn no_value_text() -> Seq<char> {
    "Syntax error: Serialized multiple values when there should only be one"@
}

/// Whether the error `e` reports `ne`.
pub open spec fn reports(e: Error, ne: NaiveError) -> bool {
    match ne {
        NaiveError::ExpectedKey(t) => e matches Error::Message(m) && m@ == expected_key_text(t),
        NaiveError::ExpectedSomeValue => e == Error::ExpectedSomeValue,
        NaiveError::ExpectedSomeNonSeqValue => e == Error::ExpectedSomeNonSeqValue,
        NaiveError::ExpectedObjectStart => e == Error::ExpectedObjectStart,
        NaiveError::TrailingTokens => e == Error::TrailingTokens,
        NaiveError::NoValue => e matches Error::Message(m) && m@ == no_value_text(),
    }
}

/// A key and its values. A string token is the key; an object where the
/// key should stand has the empty key.
pub open spec fn pair_key_values(t: Seq<NaiveTokenV>) -> Result<
    (Seq<char>, Seq<ValueV>, Seq<NaiveTokenV>),
    NaiveError,
>
    decreases t.len(), 3nat,
{
    if t.len() > 0 && t[0] is Str {
        match pair_values(t.drop_first()) {
            Err(e) => Err(e),
            Ok((vs, r)) => Ok((t[0]->Str_0, vs, r)),
        }
    } else if t.len() > 0 && t[0] is ObjBegin {
        match pair_values(t) {
            Err(e) => Err(e),
            Ok((vs, r)) => Ok((Seq::<char>::empty(), vs, r)),
        }
    } else {
        Err(NaiveError::ExpectedKey(if t.len() > 0 { Some(t[0]) } else { None }))
    }
}

/// The values of a key: a string, an object, a sequence of those, or none
/// (`Null`).
pub open spec fn pair_values(t: Seq<NaiveTokenV>) -> Result<(Seq<ValueV>, Seq<NaiveTokenV>), NaiveError>
    decreases t.len(), 2nat,
{
    if t.len() == 0 {
        Err(NaiveError::ExpectedSomeValue)
    } else {
        match t[0] {
            NaiveTokenV::Str(s) => Ok((seq![ValueV::Str(s)], t.drop_first())),
            NaiveTokenV::ObjBegin => match pair_object(t.drop_first(), seq![]) {
                Err(e) => Err(e),
                Ok((v, r)) => Ok((seq![v], r)),
            },
            NaiveTokenV::SeqBegin => pair_sequence(t.drop_first(), seq![]),
            NaiveTokenV::Null => Ok((seq![], t.drop_first())),
            _ => Err(NaiveError::ExpectedSomeValue),
        }
    }
}

/// The rest of a sequence after the values `acc`, up to its end marker.
pub open spec fn pair_sequence(t: Seq<NaiveTokenV>, acc: Seq<ValueV>) -> Result<
    (Seq<ValueV>, Seq<NaiveTokenV>),
    NaiveError,
>
    decreases t.len(), 1nat,
{
    if t.len() > 0 && t[0] is SeqEnd {
        Ok((acc, t.drop_first()))
    } else {
        match pair_element(t) {
            Err(e) => Err(e),
            Ok((v, r)) => if r.len() < t.len() {
                pair_sequence(
                    r,
                    match v {
                        Some(v) => acc.push(v),
                        None => acc,
                    },
                )
            } else {
                Err(NaiveError::ExpectedSomeNonSeqValue)
            },
        }
    }
}

/// An element of a sequence: a string, an object, or none (`Null`).
pub open spec fn pair_element(t: Seq<NaiveTokenV>) -> Result<
    (Option<ValueV>, Seq<NaiveTokenV>),
    NaiveError,
>
    decreases t.len(), 0nat,
{
    if t.len() == 0 {
        Err(NaiveError::ExpectedSomeNonSeqValue)
    } else {
        match t[0] {
            NaiveTokenV::Str(s) => Ok((Some(ValueV::Str(s)), t.drop_first())),
            NaiveTokenV::ObjBegin => match pair_object(t.drop_first(), seq![]) {
                Err(e) => Err(e),
                Ok((v, r)) => Ok((Some(v), r)),
            },
            NaiveTokenV::Null => Ok((None, t.drop_first())),
            _ => Err(NaiveError::ExpectedSomeNonSeqValue),
        }
    }
}

/// The rest of an object after the entries `acc`, up to its end marker; a
/// key given again replaces its values.
pub open spec fn pair_object(t: Seq<NaiveTokenV>, acc: ObjV) -> Result<
    (ValueV, Seq<NaiveTokenV>),
    NaiveError,
>
    decreases t.len(), 4nat,
{
    if t.len() == 0 {
        Err(NaiveError::ExpectedObjectStart)
    } else if t[0] is ObjEnd {
        Ok((ValueV::Obj(acc), t.drop_first()))
    } else {
        match pair_key_values(t) {
            Err(e) => Err(e),
            Ok((k, vs, r)) => if r.len() < t.len() {
                pair_object(r, obj_insert(acc, k, vs))
            } else {
                Err(NaiveError::ExpectedObjectStart)
            },
        }
    }
}

/// The pair that naive tokens describe: the top level key with the last of
/// its values, and nothing after them.
pub open spec fn naive_pair(t: Seq<NaiveTokenV>) -> Result<VdfV, NaiveError> {
    match pair_key_values(t) {
        Err(e) => Err(e),
        Ok((k, vs, r)) => if r.len() > 0 {
            Err(NaiveError::TrailingTokens)
        } else if vs.len() == 0 {
            Err(NaiveError::NoValue)
        } else {
            Ok(VdfV { key: k, value: vs.last() })
        },
    }
}

fn expected_key(t: Option<&NaiveToken>) -> (r: Error)
    ensures
        reports(
            r,
            NaiveError::ExpectedKey(
                match t {
                    Some(t) => Some(t@),
                    None => None,
                },
            ),
        ),
{
    let m = match t {
        None => "Expected key, found: None",
        Some(NaiveToken::ObjEnd) => "Expected key, found: Some(ObjEnd)",
        Some(NaiveToken::SeqBegin) => "Expected key, found: Some(SeqBegin)",
        Some(NaiveToken::SeqEnd) => "Expected key, found: Some(SeqEnd)",
        Some(NaiveToken::Null) => "Expected key, found: Some(Null)",
        _ => "Expected key",
    };
    Error::Message(m.to_owned())
}

fn pair_key_values_at<'a>(tokens: &'a [NaiveToken], pos: usize) -> (r: Result<(usize, Key<'a>, Vec<Value<'a>>), Error>)
    requires
        pos <= tokens.len(),
    ensures
        match pair_key_values(rest_of(tokens@, pos as int)) {
            Err(ne) => r matches Err(e) && reports(e, ne),
            Ok((k, vs, t)) => r matches Ok((p, key, values)) && pos < p <= tokens.len() && key@
                == k && values_view(values@) == vs && rest_of(tokens@, p as int) == t,
        },
    decreases tokens.len() - pos, 3nat,
{
    if pos == tokens.len() {
        return Err(expected_key(None));
    }
    proof {
        lemma_rest_of_step(tokens@, pos as int);
    }
    match &tokens[pos] {
        NaiveToken::Str(s) => {
            let key = Cow::Borrowed(s.as_str());
            match pair_values_at(tokens, pos + 1) {
                Ok((p, values)) => Ok((p, key, values)),
                Err(e) => Err(e),
            }
        },
        NaiveToken::ObjBegin => {
            let key: Key<'a> = Cow::Borrowed("");
            proof {
                reveal_strlit("");
            }
            assert(key@ =~= Seq::<char>::empty());
            match pair_values_at(tokens, pos) {
                Ok((p, values)) => Ok((p, key, values)),
                Err(e) => Err(e),
            }
        },
        t => Err(expected_key(Some(t))),
    }
}

fn pair_values_at<'a>(tokens: &'a [NaiveToken], pos: usize) -> (r: Result<(usize, Vec<Value<'a>>), Error>)
    requires
        pos <= tokens.len(),
    ensures
        match pair_values(rest_of(tokens@, pos as int)) {
            Err(ne) => r matches Err(e) && reports(e, ne),
            Ok((vs, t)) => r matches Ok((p, vals)) && pos < p <= tokens.len() && values_view(vals@)
                == vs && rest_of(tokens@, p as int) == t,
        },
    decreases tokens.len() - pos, 2nat,
{
    if pos == tokens.len() {
        return Err(Error::ExpectedSomeValue);
    }
    proof {
        lemma_rest_of_step(tokens@, pos as int);
    }
    match &tokens[pos] {
        NaiveToken::Str(s) => {
            let mut vals = Vec::new();
            vals.push(Value::Str(Cow::Owned(s.clone())));
            proof {
                lemma_values_view(vals@);
                assert(values_view(vals@) =~= seq![ValueV::Str(s@)]);
            }
            Ok((pos + 1, vals))
        },
        NaiveToken::ObjBegin => {
            let (p, v) = match pair_object_at(tokens, pos + 1) {
                Ok(res) => res,
                Err(e) => return Err(e),
            };
            let mut vals = Vec::new();
            vals.push(v);
            proof {
                lemma_values_view(vals@);
                assert(values_view(vals@) =~= seq![v@]);
            }
            Ok((p, vals))
        },
        NaiveToken::SeqBegin => {
            let mut vals: Vec<Value> = Vec::new();
            let mut p = pos + 1;
            proof {
                lemma_values_view(vals@);
            }
            loop
                invariant_except_break
                    pair_values(rest_of(tokens@, pos as int)) == pair_sequence(
                        rest_of(tokens@, p as int),
                        values_view(vals@),
                    ),
                invariant
                    pos < p <= tokens.len(),
                ensures
                    pos < p <= tokens.len(),
                    pair_values(rest_of(tokens@, pos as int)) == Ok::<
                        (Seq<ValueV>, Seq<NaiveTokenV>),
                        NaiveError,
                    >((values_view(vals@), rest_of(tokens@, p as int))),
                decreases tokens.len() - p,
            {
                if p < tokens.len() {
                    proof {
                        lemma_rest_of_step(tokens@, p as int);
                    }
                    if let NaiveToken::SeqEnd = &tokens[p] {
                        p += 1;
                        break;
                    }
                }
                proof {
                    lemma_rest_of_len(tokens@, p as int);
                }
                let (q, v) = match pair_element_at(tokens, p) {
                    Ok(res) => res,
                    Err(e) => return Err(e),
                };
                proof {
                    lemma_rest_of_len(tokens@, q as int);
                }
                if let Some(v) = v {
                    proof {
                        lemma_values_view_push(vals@, v);
                    }
                    vals.push(v);
                }
                p = q;
            }
            Ok((p, vals))
        },
        NaiveToken::Null => {
            let vals: Vec<Value> = Vec::new();
            proof {
                lemma_values_view(vals@);
            }
            Ok((pos + 1, vals))
        },
        _ => Err(Error::ExpectedSomeValue),
    }
}

fn pair_element_at<'a>(tokens: &'a [NaiveToken], pos: usize) -> (r: Result<(usize, Option<Value<'a>>), Error>)
    requires
        pos <= tokens.len(),
    ensures
        match pair_element(rest_of(tokens@, pos as int)) {
            Err(ne) => r matches Err(e) && reports(e, ne),
            Ok((ov, t)) => r matches Ok((p, v)) && pos < p <= tokens.len() && match v {
                Some(v) => ov == Some(v@),
                None => ov is None,
            } && rest_of(tokens@, p as int) == t,
        },
    decreases tokens.len() - pos, 0nat,
{
    if pos == tokens.len() {
        return Err(Error::ExpectedSomeNonSeqValue);
    }
    proof {
        lemma_rest_of_step(tokens@, pos as int);
    }
    match &tokens[pos] {
        NaiveToken::Str(s) => Ok((pos + 1, Some(Value::Str(Cow::Borrowed(s.as_str()))))),
        NaiveToken::ObjBegin => {
            let (p, v) = match pair_object_at(tokens, pos + 1) {
                Ok(res) => res,
                Err(e) => return Err(e),
            };
            Ok((p, Some(v)))
        },
        NaiveToken::Null => Ok((pos + 1, None)),
        _ => Err(Error::ExpectedSomeNonSeqValue),
    }
}

fn pair_object_at<'a>(tokens: &'a [NaiveToken], pos: usize) -> (r: Result<(usize, Value<'a>), Error>)
    requires
        pos <= tokens.len(),
    ensures
        match pair_object(rest_of(tokens@, pos as int), seq![]) {
            Err(ne) => r matches Err(e) && reports(e, ne),
            Ok((v, t)) => r matches Ok((p, x)) && pos < p <= tokens.len() && x@ == v && rest_of(
                tokens@,
                p as int,
            ) == t,
        },
    decreases tokens.len() - pos, 4nat,
{
    let mut obj = Obj::new();
    let mut p = pos;
    loop
        invariant_except_break
            pair_object(rest_of(tokens@, pos as int), seq![]) == pair_object(
                rest_of(tokens@, p as int),
                obj@,
            ),
            obj.wf(),
        invariant
            pos <= p <= tokens.len(),
        ensures
            pos < p <= tokens.len(),
            pair_object(rest_of(tokens@, pos as int), seq![]) == Ok::<
                (ValueV, Seq<NaiveTokenV>),
                NaiveError,
            >((ValueV::Obj(obj@), rest_of(tokens@, p as int))),
        decreases tokens.len() - p,
    {
        if p == tokens.len() {
            return Err(Error::ExpectedObjectStart);
        }
        proof {
            lemma_rest_of_step(tokens@, p as int);
        }
        if let NaiveToken::ObjEnd = &tokens[p] {
            p += 1;
            break;
        }
        let (q, key, values) = match pair_key_values_at(tokens, p) {
            Ok(res) => res,
            Err(e) => return Err(e),
        };
        proof {
            lemma_rest_of_len(tokens@, q as int);
        }
        obj.insert(key, values);
        p = q;
    }
    Ok((p, Value::Obj(obj)))
}

/// The pair that the naive tokens describe: the top level key with the last
/// of its values.
pub fn vdf_from_naive_tokens<'a>(naive_tokens: &'a [NaiveToken]) -> (r: Result<Vdf<'a>, Error>)
    ensures
        match naive_pair(naive_tokens@.map_values(|t: NaiveToken| t@)) {
            Err(ne) => r matches Err(e) && reports(e, ne),
            Ok(v) => r matches Ok(x) && x@ == v,
        },
{
    assert(rest_of(naive_tokens@, 0) =~= naive_tokens@.map_values(|t: NaiveToken| t@));
    let (p, key, mut values) = match pair_key_values_at(naive_tokens, 0) {
        Ok(res) => res,
        Err(e) => return Err(e),
    };
    proof {
        lemma_rest_of_len(naive_tokens@, p as int);
        lemma_values_view(values@);
    }
    if p < naive_tokens.len() {
        return Err(Error::TrailingTokens);
    }
    match values.pop() {
        Some(value) => Ok(Vdf::new(key, value)),
        None => Err(Error::Message(
            "Syntax error: Serialized multiple values when there should only be one".to_owned(),
        )),
    }
}

} // verus!
