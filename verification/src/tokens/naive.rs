//! Tokens that do not tell keys from strings, as a serializer emits them,
//! and their conversion into a [`Vdf`].
use std::borrow::Cow;

use vstd::prelude::*;

use crate::strings::cow_into_string;

use crate::error::{Error, TokenContext};
use crate::tokens::{Token, TokenStream, TokenV};
use crate::value::{Key, lemma_values_view, obj_insert, values_view, Obj, ObjV, Value, ValueV, Vdf, VdfV};

verus! {

/// A token that does not tell keys from strings; `Null` stands for an
/// omitted value.
#[derive(Clone, Debug, PartialEq, Eq, Hash, PartialOrd, Ord)]
pub enum NaiveToken {
    Str(String),
    ObjBegin,
    ObjEnd,
    SeqBegin,
    SeqEnd,
    Null,
}

/// The model of a [`NaiveToken`].
pub enum NaiveTokenV {
    Str(Seq<char>),
    ObjBegin,
    ObjEnd,
    SeqBegin,
    SeqEnd,
    Null,
}

impl View for NaiveToken {
    type V = NaiveTokenV;

    open spec fn view(&self) -> NaiveTokenV {
        match self {
            NaiveToken::Str(s) => NaiveTokenV::Str(s@),
            NaiveToken::ObjBegin => NaiveTokenV::ObjBegin,
            NaiveToken::ObjEnd => NaiveTokenV::ObjEnd,
            NaiveToken::SeqBegin => NaiveTokenV::SeqBegin,
            NaiveToken::SeqEnd => NaiveTokenV::SeqEnd,
            NaiveToken::Null => NaiveTokenV::Null,
        }
    }
}

/// The views of a sequence of naive tokens.
pub open spec fn naive_view(ts: Seq<NaiveToken>) -> Seq<NaiveTokenV> {
    ts.map_values(|t: NaiveToken| t@)
}

/// A stream of naive tokens.
#[derive(Clone, Debug, Default, PartialEq, Eq, Hash, PartialOrd, Ord)]
pub struct NaiveTokenStream(pub Vec<NaiveToken>);

impl View for NaiveTokenStream {
    type V = Seq<NaiveTokenV>;

    open spec fn view(&self) -> Seq<NaiveTokenV> {
        naive_view(self.0@)
    }
}

impl NaiveToken {
    /// A string token.
    pub fn str(s: &str) -> (r: NaiveToken)
        ensures
            r@ == NaiveTokenV::Str(s@),
    {
        NaiveToken::Str(s.to_owned())
    }
}

/// The model of a token with its key marker dropped.
pub open spec fn naive_of(t: TokenV) -> NaiveTokenV {
    match t {
        TokenV::Key(s) => NaiveTokenV::Str(s),
        TokenV::Str(s) => NaiveTokenV::Str(s),
        TokenV::ObjBegin => NaiveTokenV::ObjBegin,
        TokenV::ObjEnd => NaiveTokenV::ObjEnd,
        TokenV::SeqBegin => NaiveTokenV::SeqBegin,
        TokenV::SeqEnd => NaiveTokenV::SeqEnd,
    }
}

impl<'a> From<Token<'a>> for NaiveToken {
    /// Drops the key marker.
    fn from(token: Token<'a>) -> (r: NaiveToken)
        ensures
            r@ == naive_of(token@),
    {
        match token {
            Token::Key(s) => NaiveToken::Str(cow_into_string(s)),
            Token::Str(s) => NaiveToken::Str(cow_into_string(s)),
            Token::ObjBegin => NaiveToken::ObjBegin,
            Token::ObjEnd => NaiveToken::ObjEnd,
            Token::SeqBegin => NaiveToken::SeqBegin,
            Token::SeqEnd => NaiveToken::SeqEnd,
        }
    }
}

impl<'a> vstd::std_specs::convert::FromSpecImpl<Token<'a>> for NaiveToken {
    /// The conversion is stated by the `ensures` of `from`, over views.
    open spec fn obeys_from_spec() -> bool {
        false
    }

    open spec fn from_spec(token: Token<'a>) -> NaiveToken {
        arbitrary()
    }
}

impl<'a> From<TokenStream<'a>> for NaiveTokenStream {
    /// Drops the key markers.
    fn from(token_stream: TokenStream<'a>) -> (r: NaiveTokenStream)
        ensures
            r@ == token_stream@.map_values(|t: TokenV| naive_of(t)),
    {
        let mut inner: Vec<NaiveToken> = Vec::new();
        let ghost ts = token_stream@;
        let mut i: usize = 0;
        let n = token_stream.0.len();
        for token in it: token_stream.0.into_iter()
            invariant
                ts == it.seq().map_values(|t: Token| t@),
                n == it.seq().len(),
                i == it.index(),
                naive_view(inner@) == ts.take(i as int).map_values(|t: TokenV| naive_of(t)),
        {
            let ghost tv = token@;
            let ghost before = inner@;
            let nt = NaiveToken::from(token);
            inner.push(nt);
            proof {
                assert(naive_view(inner@) =~= naive_view(before).push(nt@));
                assert(ts[i as int] == tv);
                assert(ts.take(i + 1) =~= ts.take(i as int).push(tv));
                assert(naive_view(inner@) =~= ts.take(i + 1).map_values(|t: TokenV| naive_of(t)));
            }
            i += 1;
        }
        assert(ts.take(ts.len() as int) =~= ts);
        NaiveTokenStream(inner)
    }
}

impl<'a> vstd::std_specs::convert::FromSpecImpl<TokenStream<'a>> for NaiveTokenStream {
    /// The conversion is stated by the `ensures` of `from`, over views.
    open spec fn obeys_from_spec() -> bool {
        false
    }

    open spec fn from_spec(token_stream: TokenStream) -> NaiveTokenStream {
        arbitrary()
    }
}


/// A key and its values: a string token, then the values.
pub open spec fn key_values(t: Seq<NaiveTokenV>) -> Result<
    (Seq<char>, Seq<ValueV>, Seq<NaiveTokenV>),
    TokenContext,
>
    decreases t.len(), 3nat,
{
    if t.len() == 0 {
        Err(TokenContext::EofWhileParsingKey)
    } else {
        match t[0] {
            NaiveTokenV::Str(s) => match values(t.drop_first()) {
                Err(e) => Err(e),
                Ok((vs, r)) => Ok((s, vs, r)),
            },
            _ => Err(TokenContext::ExpectedSomeVal),
        }
    }
}

/// The values of a key: a string, an object, a sequence of those, or none
/// (`Null`).
pub open spec fn values(t: Seq<NaiveTokenV>) -> Result<(Seq<ValueV>, Seq<NaiveTokenV>), TokenContext>
    decreases t.len(), 2nat,
{
    if t.len() == 0 {
        Err(TokenContext::EofWhileParsingVal)
    } else {
        match t[0] {
            NaiveTokenV::Str(s) => Ok((seq![ValueV::Str(s)], t.drop_first())),
            NaiveTokenV::ObjBegin => match object(t.drop_first(), seq![]) {
                Err(e) => Err(e),
                Ok((v, r)) => Ok((seq![v], r)),
            },
            NaiveTokenV::SeqBegin => sequence(t.drop_first(), seq![]),
            NaiveTokenV::Null => Ok((seq![], t.drop_first())),
            _ => Err(TokenContext::ExpectedSomeVal),
        }
    }
}

/// The rest of a sequence after `acc`, up to its `SeqEnd`.
pub open spec fn sequence(t: Seq<NaiveTokenV>, acc: Seq<ValueV>) -> Result<
    (Seq<ValueV>, Seq<NaiveTokenV>),
    TokenContext,
>
    decreases t.len(), 1nat,
{
    if t.len() > 0 && t[0] is SeqEnd {
        Ok((acc, t.drop_first()))
    } else {
        match non_seq_value(t) {
            Err(e) => Err(e),
            Ok((v, r)) => if r.len() < t.len() {
                sequence(
                    r,
                    match v {
                        Some(v) => acc.push(v),
                        None => acc,
                    },
                )
            } else {
                Err(TokenContext::EofWhileParsingSeq)
            },
        }
    }
}

/// A value inside a sequence: a string, an object, or none (`Null`).
pub open spec fn non_seq_value(t: Seq<NaiveTokenV>) -> Result<
    (Option<ValueV>, Seq<NaiveTokenV>),
    TokenContext,
>
    decreases t.len(), 0nat,
{
    if t.len() == 0 {
        Err(TokenContext::EofWhileParsingSeq)
    } else {
        match t[0] {
            NaiveTokenV::Str(s) => Ok((Some(ValueV::Str(s)), t.drop_first())),
            NaiveTokenV::ObjBegin => match object(t.drop_first(), seq![]) {
                Err(e) => Err(e),
                Ok((v, r)) => Ok((Some(v), r)),
            },
            NaiveTokenV::Null => Ok((None, t.drop_first())),
            _ => Err(TokenContext::ExpectedNonSeqVal),
        }
    }
}

/// The rest of an object after the entries `acc`, up to its `ObjEnd`; a key
/// given again replaces its values.
pub open spec fn object(t: Seq<NaiveTokenV>, acc: ObjV) -> Result<(ValueV, Seq<NaiveTokenV>), TokenContext>
    decreases t.len(), 4nat,
{
    if t.len() == 0 {
        Err(TokenContext::EofWhileParsingObj)
    } else if t[0] is ObjEnd {
        Ok((ValueV::Obj(acc), t.drop_first()))
    } else {
        match key_values(t) {
            Err(e) => Err(e),
            Ok((k, vs, r)) => if r.len() < t.len() {
                object(r, obj_insert(acc, k, vs))
            } else {
                Err(TokenContext::EofWhileParsingObj)
            },
        }
    }
}

/// The pair that a naive token stream describes: one key with exactly one
/// value, and nothing after it.
pub open spec fn naive_vdf(t: Seq<NaiveTokenV>) -> Result<VdfV, Error> {
    match key_values(t) {
        Err(e) => Err(Error::InvalidTokenStream(e)),
        Ok((k, vs, r)) => if r.len() != 0 {
            Err(Error::InvalidTokenStream(TokenContext::TrailingTokens))
        } else if vs.len() == 0 {
            Err(Error::InvalidTokenStream(TokenContext::ExpectedNonSeqVal))
        } else if vs.len() == 1 {
            Ok(VdfV { key: k, value: vs[0] })
        } else {
            Err(Error::InvalidTokenStream(TokenContext::TrailingTokens))
        },
    }
}

/// The tokens of `ts` from `pos` on.
pub open spec fn rest_of(ts: Seq<NaiveToken>, pos: int) -> Seq<NaiveTokenV> {
    naive_view(ts).skip(pos)
}

pub(crate) proof fn lemma_rest_of_step(ts: Seq<NaiveToken>, pos: int)
    requires
        0 <= pos < ts.len(),
    ensures
        rest_of(ts, pos).len() == ts.len() - pos,
        rest_of(ts, pos)[0] == ts[pos]@,
        rest_of(ts, pos).drop_first() == rest_of(ts, pos + 1),
{
    assert(rest_of(ts, pos).drop_first() =~= rest_of(ts, pos + 1));
}

pub(crate) proof fn lemma_rest_of_len(ts: Seq<NaiveToken>, pos: int)
    requires
        0 <= pos <= ts.len(),
    ensures
        rest_of(ts, pos).len() == ts.len() - pos,
{
}

fn process_key_values<'a>(tokens: &'a Vec<NaiveToken>, pos: usize) -> (r: Result<
    (usize, Key<'a>, Vec<Value<'a>>),
    TokenContext,
>)
    requires
        pos <= tokens.len(),
    ensures
        match key_values(rest_of(tokens@, pos as int)) {
            Err(e) => r == Err::<(usize, Key<'a>, Vec<Value<'a>>), TokenContext>(e),
            Ok((k, vs, t)) => r matches Ok((p, key, values)) && pos < p <= tokens.len() && key@
                == k && values_view(values@) == vs && rest_of(tokens@, p as int) == t,
        },
    decreases tokens.len() - pos, 3nat,
{
    if pos == tokens.len() {
        return Err(TokenContext::EofWhileParsingKey);
    }
    proof {
        lemma_rest_of_step(tokens@, pos as int);
    }
    match &tokens[pos] {
        NaiveToken::Str(s) => {
            let key = Cow::Borrowed(s.as_str());
            match process_values(tokens, pos + 1) {
                Ok((p, values)) => Ok((p, key, values)),
                Err(e) => Err(e),
            }
        },
        _ => Err(TokenContext::ExpectedSomeVal),
    }
}

fn process_values<'a>(tokens: &'a Vec<NaiveToken>, pos: usize) -> (r: Result<
    (usize, Vec<Value<'a>>),
    TokenContext,
>)
    requires
        pos <= tokens.len(),
    ensures
        match values(rest_of(tokens@, pos as int)) {
            Err(e) => r == Err::<(usize, Vec<Value>), TokenContext>(e),
            Ok((vs, t)) => r matches Ok((p, vals)) && pos < p <= tokens.len() && values_view(
                vals@,
            ) == vs && rest_of(tokens@, p as int) == t,
        },
    decreases tokens.len() - pos, 2nat,
{
    if pos == tokens.len() {
        return Err(TokenContext::EofWhileParsingVal);
    }
    proof {
        lemma_rest_of_step(tokens@, pos as int);
    }
    match &tokens[pos] {
        NaiveToken::Str(s) => {
            let mut vals = Vec::new();
            vals.push(Value::Str(Cow::Owned(s.clone())));
            proof {
                lemma_values_view(vals@);
                assert(values_view(vals@) =~= seq![ValueV::Str(s@)]);
            }
            Ok((pos + 1, vals))
        },
        NaiveToken::ObjBegin => {
            let (p, v) = process_obj(tokens, pos + 1)?;
            let mut vals = Vec::new();
            vals.push(v);
            proof {
                lemma_values_view(vals@);
                assert(values_view(vals@) =~= seq![v@]);
            }
            Ok((p, vals))
        },
        NaiveToken::SeqBegin => {
            let mut vals: Vec<Value> = Vec::new();
            let mut p = pos + 1;
            proof {
                lemma_values_view(vals@);
            }
            loop
                invariant_except_break
                    values(rest_of(tokens@, pos as int)) == sequence(
                        rest_of(tokens@, p as int),
                        values_view(vals@),
                    ),
                invariant
                    pos < p <= tokens.len(),
                ensures
                    pos < p <= tokens.len(),
                    values(rest_of(tokens@, pos as int)) == Ok::<
                        (Seq<ValueV>, Seq<NaiveTokenV>),
                        TokenContext,
                    >((values_view(vals@), rest_of(tokens@, p as int))),
                decreases tokens.len() - p,
            {
                if p < tokens.len() {
                    proof {
                        lemma_rest_of_step(tokens@, p as int);
                    }
                    if let NaiveToken::SeqEnd = &tokens[p] {
                        p += 1;
                        break;
                    }
                }
                proof {
                    lemma_rest_of_len(tokens@, p as int);
                }
                let (q, v) = match process_non_seq_value(tokens, p) {
                    Ok(res) => res,
                    Err(e) => return Err(e),
                };
                proof {
                    lemma_rest_of_len(tokens@, q as int);
                }
                if let Some(v) = v {
                    proof {
                        crate::value::lemma_values_view_push(vals@, v);
                    }
                    vals.push(v);
                }
                p = q;
            }
            Ok((p, vals))
        },
        NaiveToken::Null => {
            let vals: Vec<Value> = Vec::new();
            proof {
                lemma_values_view(vals@);
            }
            Ok((pos + 1, vals))
        },
        _ => Err(TokenContext::ExpectedSomeVal),
    }
}

fn process_non_seq_value<'a>(tokens: &'a Vec<NaiveToken>, pos: usize) -> (r: Result<
    (usize, Option<Value<'a>>),
    TokenContext,
>)
    requires
        pos <= tokens.len(),
    ensures
        match non_seq_value(rest_of(tokens@, pos as int)) {
            Err(e) => r == Err::<(usize, Option<Value>), TokenContext>(e),
            Ok((ov, t)) => r matches Ok((p, v)) && pos < p <= tokens.len() && match v {
                Some(v) => ov == Some(v@),
                None => ov is None,
            } && rest_of(tokens@, p as int) == t,
        },
    decreases tokens.len() - pos, 0nat,
{
    if pos == tokens.len() {
        return Err(TokenContext::EofWhileParsingSeq);
    }
    proof {
        lemma_rest_of_step(tokens@, pos as int);
    }
    match &tokens[pos] {
        NaiveToken::Str(s) => Ok((pos + 1, Some(Value::Str(Cow::Borrowed(s.as_str()))))),
        NaiveToken::ObjBegin => {
            let (p, v) = process_obj(tokens, pos + 1)?;
            Ok((p, Some(v)))
        },
        NaiveToken::Null => Ok((pos + 1, None)),
        _ => Err(TokenContext::ExpectedNonSeqVal),
    }
}

fn process_obj<'a>(tokens: &'a Vec<NaiveToken>, pos: usize) -> (r: Result<(usize, Value<'a>), TokenContext>)
    requires
        pos <= tokens.len(),
    ensures
        match object(rest_of(tokens@, pos as int), seq![]) {
            Err(e) => r == Err::<(usize, Value), TokenContext>(e),
            Ok((v, t)) => r matches Ok((p, x)) && pos < p <= tokens.len() && x@ == v && rest_of(
                tokens@,
                p as int,
            ) == t,
        },
    decreases tokens.len() - pos, 4nat,
{
    let mut obj = Obj::new();
    let mut p = pos;
    loop
        invariant_except_break
            object(rest_of(tokens@, pos as int), seq![]) == object(rest_of(tokens@, p as int), obj@),
            obj.wf(),
        invariant
            pos <= p <= tokens.len(),
        ensures
            pos < p <= tokens.len(),
            object(rest_of(tokens@, pos as int), seq![]) == Ok::<
                (ValueV, Seq<NaiveTokenV>),
                TokenContext,
            >((ValueV::Obj(obj@), rest_of(tokens@, p as int))),
        decreases tokens.len() - p,
    {
        if p == tokens.len() {
            return Err(TokenContext::EofWhileParsingObj);
        }
        proof {
            lemma_rest_of_step(tokens@, p as int);
        }
        if let NaiveToken::ObjEnd = &tokens[p] {
            p += 1;
            break;
        }
        let (q, key, values) = match process_key_values(tokens, p) {
            Ok(res) => res,
            Err(e) => return Err(e),
        };
        proof {
            lemma_rest_of_len(tokens@, q as int);
        }
        obj.insert(key, values);
        p = q;
    }
    Ok((p, Value::Obj(obj)))
}

/// The pair that a naive token stream describes.
pub fn vdf_from_naive<'a>(naive_token_stream: &'a NaiveTokenStream) -> (r: Result<Vdf<'a>, Error>)
    ensures
        match naive_vdf(naive_token_stream@) {
            Err(e) => r == Err::<Vdf, Error>(e),
            Ok(v) => r matches Ok(x) && x@ == v,
        },
{
    let tokens = &naive_token_stream.0;
    assert(rest_of(tokens@, 0) =~= naive_token_stream@);
    let (p, key, mut values) = match process_key_values(tokens, 0) {
        Ok(res) => res,
        Err(e) => return Err(Error::from(e)),
    };
    proof {
        lemma_rest_of_len(tokens@, p as int);
        lemma_values_view(values@);
    }
    if p == tokens.len() {
        if values.len() == 0 {
            Err(Error::from(TokenContext::ExpectedNonSeqVal))
        } else if values.len() == 1 {
            let value = values.pop().unwrap();
            Ok(Vdf::new(key, value))
        } else {
            Err(Error::from(TokenContext::TrailingTokens))
        }
    } else {
        Err(Error::from(TokenContext::TrailingTokens))
    }
}

impl<'a> TryFrom<&'a NaiveTokenStream> for Vdf<'a> {
    type Error = Error;

    /// The pair that the stream describes.
    fn try_from(naive_token_stream: &'a NaiveTokenStream) -> (r: Result<Vdf<'a>, Error>)
        ensures
            match naive_vdf(naive_token_stream@) {
                Err(e) => r == Err::<Vdf, Error>(e),
                Ok(v) => r matches Ok(x) && x@ == v,
            },
    {
        vdf_from_naive(naive_token_stream)
    }
}

impl<'a> vstd::std_specs::convert::TryFromSpecImpl<&'a NaiveTokenStream> for Vdf<'a> {
    /// The conversion is stated by the `ensures` of `try_from`, over views.
    open spec fn obeys_try_from_spec() -> bool {
        false
    }

    open spec fn try_from_spec(naive_token_stream: &'a NaiveTokenStream) -> Result<Vdf, Error> {
        arbitrary()
    }
}

} // verus!
