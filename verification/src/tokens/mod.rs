//! A value flattened into a stream of tokens: keys and strings, with markers
//! where objects and sequences of values begin and end.
use std::borrow::Cow;

use vstd::prelude::*;

use crate::strings::clone_cow;

use crate::value::{lemma_entries_view, lemma_values_view, values_view, Obj, ObjV, Value, ValueV, Vdf};

pub mod naive;
pub mod roundtrip;

verus! {

/// A single VDF token.
#[derive(Debug, PartialEq, Eq)]
pub enum Token<'a> {
    Key(Cow<'a, str>),
    Str(Cow<'a, str>),
    ObjBegin,
    ObjEnd,
    SeqBegin,
    SeqEnd,
}

/// The model of a [`Token`].
pub enum TokenV {
    Key(Seq<char>),
    Str(Seq<char>),
    ObjBegin,
    ObjEnd,
    SeqBegin,
    SeqEnd,
}

impl<'a> View for Token<'a> {
    type V = TokenV;

    open spec fn view(&self) -> TokenV {
        match self {
            Token::Key(s) => TokenV::Key(s@),
            Token::Str(s) => TokenV::Str(s@),
            Token::ObjBegin => TokenV::ObjBegin,
            Token::ObjEnd => TokenV::ObjEnd,
            Token::SeqBegin => TokenV::SeqBegin,
            Token::SeqEnd => TokenV::SeqEnd,
        }
    }
}

/// The views of a sequence of tokens.
pub open spec fn tokens_view(ts: Seq<Token>) -> Seq<TokenV> {
    ts.map_values(|t: Token| t@)
}

/// A stream of tokens: a key is followed by a string, an object between
/// `ObjBegin` and `ObjEnd`, or (for a key with other than one value) a
/// sequence of those between `SeqBegin` and `SeqEnd`.
#[derive(Debug, PartialEq, Eq)]
pub struct TokenStream<'a>(pub Vec<Token<'a>>);

impl<'a> View for TokenStream<'a> {
    type V = Seq<TokenV>;

    open spec fn view(&self) -> Seq<TokenV> {
        tokens_view(self.0@)
    }
}

/// The tokens of a value.
pub open spec fn value_tokens(v: ValueV) -> Seq<TokenV>
    decreases v, 1nat,
{
    match v {
        ValueV::Str(s) => seq![TokenV::Str(s)],
        ValueV::Obj(o) => seq![TokenV::ObjBegin] + entries_tokens(o) + seq![TokenV::ObjEnd],
    }
}

/// The tokens of the entries of an object.
pub open spec fn entries_tokens(o: ObjV) -> Seq<TokenV>
    decreases o, 0nat,
{
    if o.len() == 0 {
        seq![]
    } else {
        entries_tokens(o.drop_last()) + entry_tokens(o.last().0, o.last().1)
    }
}

/// The tokens of a key and its values: a sequence unless there is one value.
pub open spec fn entry_tokens(k: Seq<char>, vs: Seq<ValueV>) -> Seq<TokenV>
    decreases vs, 2nat,
{
    if vs.len() == 1 {
        seq![TokenV::Key(k)] + values_tokens(vs)
    } else {
        seq![TokenV::Key(k), TokenV::SeqBegin] + values_tokens(vs) + seq![TokenV::SeqEnd]
    }
}

/// The tokens of a list of values, one after the other.
pub open spec fn values_tokens(vs: Seq<ValueV>) -> Seq<TokenV>
    decreases vs, 0nat,
{
    if vs.len() == 0 {
        seq![]
    } else {
        values_tokens(vs.drop_last()) + value_tokens(vs.last())
    }
}

/// The tokens of a key and its value.
pub open spec fn vdf_tokens(k: Seq<char>, v: ValueV) -> Seq<TokenV> {
    seq![TokenV::Key(k)] + value_tokens(v)
}

pub proof fn lemma_tokens_view_push(ts: Seq<Token>, t: Token)
    ensures
        tokens_view(ts.push(t)) == tokens_view(ts).push(t@),
{
    assert(tokens_view(ts.push(t)) =~= tokens_view(ts).push(t@));
}

/// The tokens of a key and its value.
pub fn tokens_from_vdf<'a>(vdf: Vdf<'a>) -> (r: Vec<Token<'a>>)
    ensures
        tokens_view(r@) == vdf_tokens(vdf.key@, vdf.value@),
{
    let Vdf { key, value } = vdf;
    let mut tokens = Vec::new();
    let ghost k = key@;
    tokens.push(Token::Key(key));
    assert(tokens_view(tokens@) =~= seq![TokenV::Key(k)]);
    push_tokens_from_value(&mut tokens, &value);
    assert(tokens_view(tokens@) =~= vdf_tokens(k, value@));
    tokens
}

fn push_tokens_from_value<'a>(tokens: &mut Vec<Token<'a>>, value: &Value<'a>)
    ensures
        tokens_view(final(tokens)@) == tokens_view(old(tokens)@) + value_tokens(value@),
    decreases value,
{
    match value {
        Value::Str(s) => {
            let t = Token::Str(clone_cow(s));
            proof {
                lemma_tokens_view_push(tokens@, t);
            }
            tokens.push(t);
            assert(tokens_view(tokens@) =~= tokens_view(old(tokens)@) + value_tokens(value@));
        },
        Value::Obj(obj) => {
            proof {
                lemma_tokens_view_push(tokens@, Token::ObjBegin);
            }
            tokens.push(Token::ObjBegin);
            push_tokens_from_obj(tokens, obj);
            proof {
                lemma_tokens_view_push(tokens@, Token::ObjEnd);
            }
            tokens.push(Token::ObjEnd);
            assert(tokens_view(tokens@) =~= tokens_view(old(tokens)@) + value_tokens(value@));
        },
    }
}

fn push_tokens_from_obj<'a>(tokens: &mut Vec<Token<'a>>, obj: &Obj<'a>)
    ensures
        tokens_view(final(tokens)@) == tokens_view(old(tokens)@) + entries_tokens(obj@),
    decreases obj,
{
    let ghost o = obj@;
    proof {
        lemma_entries_view(obj.0@);
    }
    let mut i: usize = 0;
    while i < obj.0.len()
        invariant
            i <= obj.0@.len(),
            o == obj@,
            o.len() == obj.0@.len(),
            forall|k: int|
                0 <= k < obj.0@.len() ==> #[trigger] o[k] == (obj.0@[k].0@, values_view(
                    obj.0@[k].1@,
                )),
            tokens_view(tokens@) == tokens_view(old(tokens)@) + entries_tokens(o.take(i as int)),
        decreases obj.0.len() - i,
    {
        let key = &obj.0[i].0;
        let values = &obj.0[i].1;
        let ghost vs = o[i as int].1;
        let ghost before = tokens@;
        assert(*values == obj.0@[i as int].1);
        proof {
            lemma_values_view(values@);
        }
        let num_values = values.len();
        let t = Token::Key(clone_cow(key));
        proof {
            lemma_tokens_view_push(tokens@, t);
        }
        tokens.push(t);
        if num_values != 1 {
            proof {
                lemma_tokens_view_push(tokens@, Token::SeqBegin);
            }
            tokens.push(Token::SeqBegin);
        }
        let ghost start = tokens@;
        let mut j: usize = 0;
        while j < values.len()
            invariant
                j <= values@.len(),
                i < obj.0@.len(),
                *values == obj.0@[i as int].1,
                vs == values_view(values@),
                vs.len() == values@.len(),
                forall|k: int| 0 <= k < values@.len() ==> #[trigger] vs[k] == values@[k]@,
                tokens_view(tokens@) == tokens_view(start) + values_tokens(vs.take(j as int)),
            decreases values.len() - j,
        {
            proof {
                let e = obj.0@[i as int];
                assert(decreases_to!(*obj => obj.0));
                assert(decreases_to!(obj.0 => obj.0@));
                assert(decreases_to!(obj.0@ => e));
                assert(decreases_to!(e => e.1));
                assert(decreases_to!(e.1 => e.1@));
                assert(decreases_to!(e.1@ => e.1@[j as int]));
            }
            push_tokens_from_value(tokens, &values[j]);
            proof {
                let t = vs.take(j + 1);
                assert(t.drop_last() =~= vs.take(j as int));
                assert(tokens_view(tokens@) =~= tokens_view(start) + values_tokens(t));
            }
            j += 1;
        }
        if num_values != 1 {
            proof {
                lemma_tokens_view_push(tokens@, Token::SeqEnd);
            }
            tokens.push(Token::SeqEnd);
        }
        proof {
            assert(vs.take(vs.len() as int) =~= vs);
            let o1 = o.take(i + 1);
            assert(o1.drop_last() =~= o.take(i as int));
            assert(o1.last() == o[i as int]);
            assert(tokens_view(tokens@) =~= tokens_view(before) + entry_tokens(key@, vs));
            assert(tokens_view(tokens@) =~= tokens_view(old(tokens)@) + entries_tokens(o1));
        }
        i += 1;
    }
    assert(o.take(o.len() as int) =~= o);
}


/// The first element of `s`, if any.
pub open spec fn head<A>(s: Seq<A>) -> Option<A> {
    if s.len() > 0 {
        Some(s[0])
    } else {
        None
    }
}

impl<'a> TokenStream<'a> {
    /// The next token.
    pub fn peek(&self) -> (r: Option<&Token<'a>>)
        ensures
            r is Some == (self.0@.len() > 0),
            r matches Some(t) ==> *t == self.0@[0],
    {
        if self.0.len() == 0 {
            None
        } else {
            Some(&self.0[0])
        }
    }

    /// Whether the next token is a key.
    pub fn peek_is_key(&self) -> (r: bool)
        ensures
            r == (head(self@) matches Some(TokenV::Key(_))),
    {
        match self.peek() {
            Some(Token::Key(_)) => true,
            _ => false,
        }
    }

    /// Whether the next token is a string.
    pub fn peek_is_str(&self) -> (r: bool)
        ensures
            r == (head(self@) matches Some(TokenV::Str(_))),
    {
        match self.peek() {
            Some(Token::Str(_)) => true,
            _ => false,
        }
    }

    /// Whether the next token starts a value: a string, an object or a
    /// sequence.
    pub fn peek_is_value(&self) -> (r: bool)
        ensures
            r == (head(self@) matches Some(TokenV::ObjBegin) || head(self@) matches Some(
                TokenV::SeqBegin,
            ) || head(self@) matches Some(TokenV::Str(_))),
    {
        match self.peek() {
            Some(Token::ObjBegin) | Some(Token::SeqBegin) | Some(Token::Str(_)) => true,
            _ => false,
        }
    }

    /// Takes the next token.
    pub fn next(&mut self) -> (r: Option<Token<'a>>)
        ensures
            r == head(old(self).0@),
            final(self).0@ == if old(self).0@.len() > 0 {
                old(self).0@.drop_first()
            } else {
                old(self).0@
            },
    {
        if self.0.len() == 0 {
            None
        } else {
            let t = self.0.remove(0);
            assert(self.0@ =~= old(self).0@.drop_first());
            Some(t)
        }
    }

    /// Takes the next token if it is a key, and gives its text.
    pub fn next_key(&mut self) -> (r: Option<Cow<'a, str>>)
        ensures
            match head(old(self)@) {
                Some(TokenV::Key(k)) => r matches Some(s) && s@ == k && final(self).0@ == old(
                    self,
                ).0@.drop_first(),
                _ => r is None && final(self).0@ == old(self).0@,
            },
    {
        if self.peek_is_key() {
            match self.next() {
                Some(Token::Key(s)) => Some(s),
                _ => {
                    assert(false);
                    None
                },
            }
        } else {
            None
        }
    }

    /// Takes the next token if it is a string, and gives its text.
    pub fn next_str(&mut self) -> (r: Option<Cow<'a, str>>)
        ensures
            match head(old(self)@) {
                Some(TokenV::Str(k)) => r matches Some(s) && s@ == k && final(self).0@ == old(
                    self,
                ).0@.drop_first(),
                _ => r is None && final(self).0@ == old(self).0@,
            },
    {
        if self.peek_is_str() {
            match self.next() {
                Some(Token::Str(s)) => Some(s),
                _ => {
                    assert(false);
                    None
                },
            }
        } else {
            None
        }
    }

    /// Takes the next token if it is a key or a string, and gives its text.
    pub fn next_key_or_str(&mut self) -> (r: Option<Cow<'a, str>>)
        ensures
            match head(old(self)@) {
                Some(TokenV::Key(k)) => r matches Some(s) && s@ == k && final(self).0@ == old(
                    self,
                ).0@.drop_first(),
                Some(TokenV::Str(k)) => r matches Some(s) && s@ == k && final(self).0@ == old(
                    self,
                ).0@.drop_first(),
                _ => r is None && final(self).0@ == old(self).0@,
            },
    {
        match self.next_key() {
            Some(k) => Some(k),
            None => self.next_str(),
        }
    }
}

impl<'a> From<Vdf<'a>> for TokenStream<'a> {
    /// The tokens of the pair.
    fn from(vdf: Vdf<'a>) -> (r: TokenStream<'a>)
        ensures
            r@ == vdf_tokens(vdf.key@, vdf.value@),
    {
        TokenStream(tokens_from_vdf(vdf))
    }
}

impl<'a> vstd::std_specs::convert::FromSpecImpl<Vdf<'a>> for TokenStream<'a> {
    /// The conversion is stated by the `ensures` of `from`, over views.
    open spec fn obeys_from_spec() -> bool {
        false
    }

    open spec fn from_spec(vdf: Vdf) -> TokenStream {
        arbitrary()
    }
}

impl<'a> Clone for Token<'a> {
    /// A copy of the token, borrowing what it borrows.
    fn clone(&self) -> (r: Token<'a>)
        ensures
            r@ == self@,
    {
        match self {
            Token::Key(s) => Token::Key(clone_cow(s)),
            Token::Str(s) => Token::Str(clone_cow(s)),
            Token::ObjBegin => Token::ObjBegin,
            Token::ObjEnd => Token::ObjEnd,
            Token::SeqBegin => Token::SeqBegin,
            Token::SeqEnd => Token::SeqEnd,
        }
    }
}

impl<'a> Clone for TokenStream<'a> {
    /// A copy of the tokens.
    fn clone(&self) -> (r: TokenStream<'a>)
        ensures
            r@ == self@,
    {
        let mut out: Vec<Token<'a>> = Vec::new();
        let mut i: usize = 0;
        while i < self.0.len()
            invariant
                i <= self.0.len(),
                tokens_view(out@) == tokens_view(self.0@.take(i as int)),
            decreases self.0.len() - i,
        {
            let t = self.0[i].clone();
            proof {
                lemma_tokens_view_push(out@, t);
                lemma_tokens_view_push(self.0@.take(i as int), self.0@[i as int]);
                assert(self.0@.take(i + 1) =~= self.0@.take(i as int).push(self.0@[i as int]));
            }
            out.push(t);
            i += 1;
        }
        assert(self.0@.take(self.0@.len() as int) =~= self.0@);
        TokenStream(out)
    }
}

} // verus!
