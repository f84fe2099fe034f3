//! Values that own all their text, apart from the text they were read from.
use vstd::prelude::*;

use crate::error::Error;
use crate::strings::cow_to_string;
use crate::text::grammar::vdf_text;
use crate::text::roundtrip::value_wf;
use crate::value::{entries_view, lemma_entries_view, lemma_values_view, values_view, Key, Obj, ObjV, Value, ValueV, Vdf, VdfV};

verus! {

/// A key that owns its text.
pub type OwnedKey = String;

/// The entries of an owned object, sorted by key.
pub type OwnedObj = Vec<(OwnedKey, Vec<OwnedValue>)>;

/// A pair that owns all its text.
#[derive(Debug, PartialEq, Eq, Hash, PartialOrd, Ord)]
pub struct OwnedVdf {
    pub key: OwnedKey,
    pub value: OwnedValue,
}

/// A value that owns all its text: a string or an object.
#[derive(Debug, PartialEq, Eq, Hash, PartialOrd, Ord)]
pub enum OwnedValue {
    Str(String),
    Obj(OwnedObj),
}

pub open spec fn owned_value_view(v: OwnedValue) -> ValueV
    decreases v,
{
    match v {
        OwnedValue::Str(s) => ValueV::Str(s@),
        OwnedValue::Obj(o) => ValueV::Obj(owned_entries_view(o@)),
    }
}

pub open spec fn owned_entries_view(es: Seq<(OwnedKey, Vec<OwnedValue>)>) -> ObjV
    decreases es,
{
    if es.len() == 0 {
        seq![]
    } else {
        seq![(es[0].0@, owned_values_view(es[0].1@))] + owned_entries_view(es.drop_first())
    }
}

pub open spec fn owned_values_view(vs: Seq<OwnedValue>) -> Seq<ValueV>
    decreases vs,
{
    if vs.len() == 0 {
        seq![]
    } else {
        seq![owned_value_view(vs[0])] + owned_values_view(vs.drop_first())
    }
}

impl View for OwnedValue {
    type V = ValueV;

    open spec fn view(&self) -> ValueV {
        owned_value_view(*self)
    }
}

impl View for OwnedVdf {
    type V = VdfV;

    open spec fn view(&self) -> VdfV {
        VdfV { key: self.key@, value: self.value@ }
    }
}

proof fn lemma_owned_entries_view(es: Seq<(OwnedKey, Vec<OwnedValue>)>)
    ensures
        owned_entries_view(es).len() == es.len(),
        forall|i: int|
            0 <= i < es.len() ==> #[trigger] owned_entries_view(es)[i] == (
                es[i].0@,
                owned_values_view(es[i].1@),
            ),
    decreases es.len(),
{
    if es.len() > 0 {
        lemma_owned_entries_view(es.drop_first());
        assert forall|i: int| 0 <= i < es.len() implies #[trigger] owned_entries_view(es)[i] == (
            es[i].0@,
            owned_values_view(es[i].1@),
        ) by {
            if i > 0 {
                assert(es.drop_first()[i - 1] == es[i]);
            }
        }
    }
}

proof fn lemma_owned_values_view(vs: Seq<OwnedValue>)
    ensures
        owned_values_view(vs).len() == vs.len(),
        forall|i: int| 0 <= i < vs.len() ==> #[trigger] owned_values_view(vs)[i] == owned_value_view(vs[i]),
    decreases vs.len(),
{
    if vs.len() > 0 {
        lemma_owned_values_view(vs.drop_first());
        assert forall|i: int| 0 <= i < vs.len() implies #[trigger] owned_values_view(vs)[i]
            == owned_value_view(vs[i]) by {
            if i > 0 {
                assert(vs.drop_first()[i - 1] == vs[i]);
            }
        }
    }
}

proof fn lemma_owned_entries_view_push(es: Seq<(OwnedKey, Vec<OwnedValue>)>, e: (OwnedKey, Vec<OwnedValue>))
    ensures
        owned_entries_view(es.push(e)) == owned_entries_view(es).push((e.0@, owned_values_view(e.1@))),
{
    lemma_owned_entries_view(es);
    lemma_owned_entries_view(es.push(e));
    assert(owned_entries_view(es.push(e)) =~= owned_entries_view(es).push((e.0@, owned_values_view(e.1@))));
}

proof fn lemma_owned_values_view_push(vs: Seq<OwnedValue>, v: OwnedValue)
    ensures
        owned_values_view(vs.push(v)) == owned_values_view(vs).push(owned_value_view(v)),
{
    lemma_owned_values_view(vs);
    lemma_owned_values_view(vs.push(v));
    assert(owned_values_view(vs.push(v)) =~= owned_values_view(vs).push(owned_value_view(v)));
}

/// An owned copy of `v`.
fn owned_from_value(v: &Value<'_>) -> (r: OwnedValue)
    ensures
        r@ == v@,
    decreases v, 2nat,
{
    match v {
        Value::Str(s) => OwnedValue::Str(cow_to_string(s)),
        Value::Obj(o) => OwnedValue::Obj(owned_from_obj(o)),
    }
}

/// An owned copy of the entries of `o`.
fn owned_from_obj(o: &Obj<'_>) -> (r: OwnedObj)
    ensures
        owned_entries_view(r@) == o@,
    decreases o, 1nat,
{
    let mut out: OwnedObj = Vec::new();
    let mut i: usize = 0;
    proof {
        lemma_entries_view(o.0@);
    }
    while i < o.0.len()
        invariant
            i <= o.0.len(),
            owned_entries_view(out@) == entries_view(o.0@.take(i as int)),
        decreases o.0.len() - i,
    {
        let entry = &o.0[i];
        proof {
            assert(decreases_to!(o => o.0));
            assert(decreases_to!(o.0 => o.0@));
            assert(decreases_to!(o.0@ => o.0@[i as int]));
            assert(decreases_to!(o.0@[i as int] => o.0@[i as int].1));
        }
        let values = owned_from_values(&entry.1);
        let e = (cow_to_string(&entry.0), values);
        proof {
            let t = o.0@.take(i as int);
            lemma_owned_entries_view_push(out@, e);
            crate::value::lemma_entries_view_push(t, o.0@[i as int]);
            assert(o.0@.take(i + 1) =~= t.push(o.0@[i as int]));
        }
        out.push(e);
        i += 1;
    }
    assert(o.0@.take(o.0@.len() as int) =~= o.0@);
    out
}

/// Owned copies of `vs`.
fn owned_from_values(vs: &Vec<Value<'_>>) -> (r: Vec<OwnedValue>)
    ensures
        owned_values_view(r@) == values_view(vs@),
    decreases vs, 0nat,
{
    let mut out: Vec<OwnedValue> = Vec::new();
    let mut i: usize = 0;
    while i < vs.len()
        invariant
            i <= vs.len(),
            owned_values_view(out@) == values_view(vs@.take(i as int)),
        decreases vs.len() - i,
    {
        proof {
            assert(decreases_to!(vs => vs@));
            assert(decreases_to!(vs@ => vs@[i as int]));
        }
        let v = owned_from_value(&vs[i]);
        proof {
            let t = vs@.take(i as int);
            lemma_owned_values_view_push(out@, v);
            crate::value::lemma_values_view_push(t, vs@[i as int]);
            assert(vs@.take(i + 1) =~= t.push(vs@[i as int]));
        }
        out.push(v);
        i += 1;
    }
    assert(vs@.take(vs@.len() as int) =~= vs@);
    out
}

impl<'a, 'b> From<&'a Value<'b>> for OwnedValue {
    /// An owned copy of the value.
    fn from(value: &'a Value<'b>) -> (r: OwnedValue)
        ensures
            r@ == value@,
    {
        owned_from_value(value)
    }
}

impl<'a, 'b> vstd::std_specs::convert::FromSpecImpl<&'a Value<'b>> for OwnedValue {
    /// The conversion is stated by the `ensures` of `from`, over views.
    open spec fn obeys_from_spec() -> bool {
        false
    }

    open spec fn from_spec(value: &'a Value<'b>) -> OwnedValue {
        arbitrary()
    }
}

impl<'a, 'b> From<&'a Vdf<'b>> for OwnedVdf {
    /// An owned copy of the pair.
    fn from(vdf: &'a Vdf<'b>) -> (r: OwnedVdf)
        ensures
            r@ == vdf@,
    {
        OwnedVdf { key: cow_to_string(&vdf.key), value: owned_from_value(&vdf.value) }
    }
}

impl<'a, 'b> vstd::std_specs::convert::FromSpecImpl<&'a Vdf<'b>> for OwnedVdf {
    /// The conversion is stated by the `ensures` of `from`, over views.
    open spec fn obeys_from_spec() -> bool {
        false
    }

    open spec fn from_spec(vdf: &'a Vdf<'b>) -> OwnedVdf {
        arbitrary()
    }
}

impl OwnedVdf {
    /// The pair of `key` and `value`.
    pub fn new(key: OwnedKey, value: OwnedValue) -> (r: OwnedVdf)
        ensures
            r.key == key,
            r.value == value,
    {
        OwnedVdf { key, value }
    }

    /// Parses VDF text, reading escape sequences in quoted strings.
    pub fn parse(s: &str) -> (r: Result<OwnedVdf, Error>)
        ensures
            match vdf_text(s@, true) {
                None => r == Err::<OwnedVdf, Error>(Error::EscapedParseError),
                Some(p) => r matches Ok(v) && v@ == (VdfV { key: p.key, value: p.value }),
            },
            r matches Ok(v) ==> value_wf(v.value@),
    {
        match Vdf::parse(s) {
            Ok(vdf) => Ok(OwnedVdf::from(&vdf)),
            Err(e) => Err(e),
        }
    }
}

impl OwnedValue {
    /// Whether the value is a string.
    pub fn is_str(&self) -> (r: bool)
        ensures
            r == (self is Str),
    {
        self.get_str().is_some()
    }

    /// Whether the value is an object.
    pub fn is_obj(&self) -> (r: bool)
        ensures
            r == (self is Obj),
    {
        self.get_obj().is_some()
    }

    /// The string, if the value is one.
    pub fn get_str(&self) -> (r: Option<&str>)
        ensures
            r is Some == (self is Str),
            r matches Some(s) ==> self@ == ValueV::Str(s@),
    {
        if let OwnedValue::Str(s) = self {
            Some(s.as_str())
        } else {
            None
        }
    }

    /// The entries, if the value is an object.
    pub fn get_obj(&self) -> (r: Option<&OwnedObj>)
        ensures
            r is Some == (self is Obj),
            r matches Some(o) ==> *self == OwnedValue::Obj(*o),
    {
        if let OwnedValue::Obj(o) = self {
            Some(o)
        } else {
            None
        }
    }

    /// The string, mutably, if the value is one.
    pub fn get_mut_str(&mut self) -> (r: Option<&mut String>)
        ensures
            r is Some == (*old(self) is Str),
            r matches Some(s) ==> *old(self) == OwnedValue::Str(*s) && *final(self) == OwnedValue::Str(*final(s)),
            r is None ==> *final(self) == *old(self),
    {
        if let OwnedValue::Str(s) = self {
            Some(s)
        } else {
            None
        }
    }

    /// The entries, mutably, if the value is an object.
    pub fn get_mut_obj(&mut self) -> (r: Option<&mut OwnedObj>)
        ensures
            r is Some == (*old(self) is Obj),
            r matches Some(o) ==> *old(self) == OwnedValue::Obj(*o) && *final(self) == OwnedValue::Obj(*final(o)),
            r is None ==> *final(self) == *old(self),
    {
        if let OwnedValue::Obj(o) = self {
            Some(o)
        } else {
            None
        }
    }

    /// The string of a string value.
    pub fn unwrap_str(self) -> (r: String)
        requires
            self is Str,
        ensures
            self == OwnedValue::Str(r),
    {
        self.expect_str("Called `unwrap_str` on a `Value::Obj` variant")
    }

    /// The entries of an object value.
    pub fn unwrap_obj(self) -> (r: OwnedObj)
        requires
            self is Obj,
        ensures
            self == OwnedValue::Obj(r),
    {
        self.expect_obj("Called `unwrap_obj` on a `Value::Str` variant")
    }

    /// The string of a string value; `msg` says what went wrong otherwise.
    pub fn expect_str(self, msg: &str) -> (r: String)
        requires
            self is Str,
        ensures
            self == OwnedValue::Str(r),
    {
        match self {
            OwnedValue::Str(s) => s,
            OwnedValue::Obj(_) => {
                proof {
                    assert(false);
                }
                String::new()
            },
        }
    }

    /// The entries of an object value; `msg` says what went wrong otherwise.
    pub fn expect_obj(self, msg: &str) -> (r: OwnedObj)
        requires
            self is Obj,
        ensures
            self == OwnedValue::Obj(r),
    {
        match self {
            OwnedValue::Obj(o) => o,
            OwnedValue::Str(_) => {
                proof {
                    assert(false);
                }
                Vec::new()
            },
        }
    }
}

/// A copy of `v`.
fn clone_owned_value(v: &OwnedValue) -> (r: OwnedValue)
    ensures
        r@ == v@,
    decreases v, 2nat,
{
    match v {
        OwnedValue::Str(s) => OwnedValue::Str(s.clone()),
        OwnedValue::Obj(o) => OwnedValue::Obj(clone_owned_obj(o)),
    }
}

/// A copy of the entries `o`.
fn clone_owned_obj(o: &OwnedObj) -> (r: OwnedObj)
    ensures
        owned_entries_view(r@) == owned_entries_view(o@),
    decreases o, 1nat,
{
    let mut out: OwnedObj = Vec::new();
    let mut i: usize = 0;
    while i < o.len()
        invariant
            i <= o.len(),
            owned_entries_view(out@) == owned_entries_view(o@.take(i as int)),
        decreases o.len() - i,
    {
        let entry = &o[i];
        proof {
            assert(decreases_to!(o => o@));
            assert(decreases_to!(o@ => o@[i as int]));
            assert(decreases_to!(o@[i as int] => o@[i as int].1));
        }
        let values = clone_owned_values(&entry.1);
        let e = (entry.0.clone(), values);
        proof {
            let t = o@.take(i as int);
            lemma_owned_entries_view_push(out@, e);
            lemma_owned_entries_view_push(t, o@[i as int]);
            assert(o@.take(i + 1) =~= t.push(o@[i as int]));
        }
        out.push(e);
        i += 1;
    }
    assert(o@.take(o@.len() as int) =~= o@);
    out
}

/// Copies of `vs`.
fn clone_owned_values(vs: &Vec<OwnedValue>) -> (r: Vec<OwnedValue>)
    ensures
        owned_values_view(r@) == owned_values_view(vs@),
    decreases vs, 0nat,
{
    let mut out: Vec<OwnedValue> = Vec::new();
    let mut i: usize = 0;
    while i < vs.len()
        invariant
            i <= vs.len(),
            owned_values_view(out@) == owned_values_view(vs@.take(i as int)),
        decreases vs.len() - i,
    {
        proof {
            assert(decreases_to!(vs => vs@));
            assert(decreases_to!(vs@ => vs@[i as int]));
        }
        let v = clone_owned_value(&vs[i]);
        proof {
            let t = vs@.take(i as int);
            lemma_owned_values_view_push(out@, v);
            lemma_owned_values_view_push(t, vs@[i as int]);
            assert(vs@.take(i + 1) =~= t.push(vs@[i as int]));
        }
        out.push(v);
        i += 1;
    }
    assert(vs@.take(vs@.len() as int) =~= vs@);
    out
}

impl Clone for OwnedValue {
    /// A copy of the value, with equal contents.
    fn clone(&self) -> (r: OwnedValue)
        ensures
            r@ == self@,
    {
        clone_owned_value(self)
    }
}

impl Clone for OwnedVdf {
    /// A copy of the pair, with equal contents.
    fn clone(&self) -> (r: OwnedVdf)
        ensures
            r@ == self@,
    {
        OwnedVdf { key: self.key.clone(), value: clone_owned_value(&self.value) }
    }
}

} // verus!
