//! The loosely typed representation of VDF text: a key mapped to a value,
//! where a value is a string or an object of keys mapped to lists of values.
use std::borrow::Cow;

use vstd::prelude::*;

use crate::strings::{clone_cow, cow_str};
use crate::order::{str_eq, key_lt, lemma_key_lt_asymmetric, lemma_key_lt_irreflexive, lemma_key_lt_total, lemma_key_lt_transitive, str_lt};

verus! {

/// A key of VDF text.
pub type Key<'a> = Cow<'a, str>;

/// The mathematical model of a [`Value`].
pub enum ValueV {
    Str(Seq<char>),
    Obj(Seq<(Seq<char>, Seq<ValueV>)>),
}

/// The model of an [`Obj`]: its entries, in key order.
pub type ObjV = Seq<(Seq<char>, Seq<ValueV>)>;

/// A value of VDF text: a string or an object.
#[derive(Debug, PartialEq, Eq, Hash, PartialOrd, Ord)]
pub enum Value<'a> {
    Str(Cow<'a, str>),
    Obj(Obj<'a>),
}

/// An object: keys mapped to lists of values, kept sorted by key with no key
/// twice (see [`Obj::wf`]).
#[derive(Debug, PartialEq, Eq, Hash, PartialOrd, Ord)]
pub struct Obj<'a>(pub Vec<(Key<'a>, Vec<Value<'a>>)>);

/// A key mapped to a single value.
#[derive(Debug, PartialEq, Eq, Hash, PartialOrd, Ord)]
pub struct Vdf<'a> {
    pub key: Key<'a>,
    pub value: Value<'a>,
}

/// A top level pair together with the `#base` macros that preceded it.
#[derive(Debug, PartialEq, Eq, Hash, PartialOrd, Ord)]
pub struct PartialVdf<'a> {
    pub key: Key<'a>,
    pub value: Value<'a>,
    pub bases: Vec<Cow<'a, str>>,
}

pub open spec fn value_view(v: Value) -> ValueV
    decreases v,
{
    match v {
        Value::Str(s) => ValueV::Str(s@),
        Value::Obj(o) => ValueV::Obj(entries_view(o.0@)),
    }
}

pub open spec fn entries_view(es: Seq<(Key, Vec<Value>)>) -> ObjV
    decreases es,
{
    if es.len() == 0 {
        seq![]
    } else {
        seq![(es[0].0@, values_view(es[0].1@))] + entries_view(es.drop_first())
    }
}

pub open spec fn values_view(vs: Seq<Value>) -> Seq<ValueV>
    decreases vs,
{
    if vs.len() == 0 {
        seq![]
    } else {
        seq![value_view(vs[0])] + values_view(vs.drop_first())
    }
}

/// Whether every key and string of `v`, at every depth, is borrowed.
pub open spec fn value_borrowed(v: Value) -> bool
    decreases v,
{
    match v {
        Value::Str(s) => s is Borrowed,
        Value::Obj(o) => entries_borrowed(o.0@),
    }
}

/// Whether every key and string of the entries `es`, at every depth, is
/// borrowed.
pub open spec fn entries_borrowed(es: Seq<(Key, Vec<Value>)>) -> bool
    decreases es,
{
    if es.len() == 0 {
        true
    } else {
        es[0].0 is Borrowed && values_borrowed(es[0].1@) && entries_borrowed(es.drop_first())
    }
}

/// Whether every key and string of the values `vs`, at every depth, is
/// borrowed.
pub open spec fn values_borrowed(vs: Seq<Value>) -> bool
    decreases vs,
{
    if vs.len() == 0 {
        true
    } else {
        value_borrowed(vs[0]) && values_borrowed(vs.drop_first())
    }
}

pub proof fn lemma_entries_borrowed(es: Seq<(Key, Vec<Value>)>)
    ensures
        entries_borrowed(es) <==> forall|i: int|
            0 <= i < es.len() ==> (#[trigger] es[i]).0 is Borrowed && values_borrowed(es[i].1@),
    decreases es.len(),
{
    if es.len() > 0 {
        lemma_entries_borrowed(es.drop_first());
        if entries_borrowed(es) {
            assert forall|i: int| 0 <= i < es.len() implies (#[trigger] es[i]).0 is Borrowed
                && values_borrowed(es[i].1@) by {
                if i > 0 {
                    assert(es.drop_first()[i - 1] == es[i]);
                }
            }
        }
        if forall|i: int| 0 <= i < es.len() ==> (#[trigger] es[i]).0 is Borrowed && values_borrowed(
            es[i].1@,
        ) {
            assert forall|i: int| 0 <= i < es.drop_first().len() implies (
            #[trigger] es.drop_first()[i]).0 is Borrowed && values_borrowed(es.drop_first()[i].1@) by {
                assert(es.drop_first()[i] == es[i + 1]);
            }
            assert(es[0].0 is Borrowed && values_borrowed(es[0].1@));
        }
    }
}

pub proof fn lemma_values_borrowed(vs: Seq<Value>)
    ensures
        values_borrowed(vs) <==> forall|i: int| 0 <= i < vs.len() ==> value_borrowed(#[trigger] vs[i]),
    decreases vs.len(),
{
    if vs.len() > 0 {
        lemma_values_borrowed(vs.drop_first());
        if values_borrowed(vs) {
            assert forall|i: int| 0 <= i < vs.len() implies value_borrowed(#[trigger] vs[i]) by {
                if i > 0 {
                    assert(vs.drop_first()[i - 1] == vs[i]);
                }
            }
        }
        if forall|i: int| 0 <= i < vs.len() ==> value_borrowed(#[trigger] vs[i]) {
            assert forall|i: int| 0 <= i < vs.drop_first().len() implies value_borrowed(
                #[trigger] vs.drop_first()[i],
            ) by {
                assert(vs.drop_first()[i] == vs[i + 1]);
            }
            assert(value_borrowed(vs[0]));
        }
    }
}

impl<'a> View for Value<'a> {
    type V = ValueV;

    open spec fn view(&self) -> ValueV {
        value_view(*self)
    }
}

impl<'a> View for Obj<'a> {
    type V = ObjV;

    open spec fn view(&self) -> ObjV {
        entries_view(self.0@)
    }
}


pub proof fn lemma_entries_view(es: Seq<(Key, Vec<Value>)>)
    ensures
        entries_view(es).len() == es.len(),
        forall|i: int|
            0 <= i < es.len() ==> #[trigger] entries_view(es)[i] == (es[i].0@, values_view(es[i].1@)),
    decreases es.len(),
{
    if es.len() > 0 {
        lemma_entries_view(es.drop_first());
        assert forall|i: int| 0 <= i < es.len() implies #[trigger] entries_view(es)[i] == (
            es[i].0@,
            values_view(es[i].1@),
        ) by {
            if i > 0 {
                assert(es.drop_first()[i - 1] == es[i]);
            }
        }
    }
}

pub proof fn lemma_values_view(vs: Seq<Value>)
    ensures
        values_view(vs).len() == vs.len(),
        forall|i: int| 0 <= i < vs.len() ==> #[trigger] values_view(vs)[i] == value_view(vs[i]),
    decreases vs.len(),
{
    if vs.len() > 0 {
        lemma_values_view(vs.drop_first());
        assert forall|i: int| 0 <= i < vs.len() implies #[trigger] values_view(vs)[i] == value_view(
            vs[i],
        ) by {
            if i > 0 {
                assert(vs.drop_first()[i - 1] == vs[i]);
            }
        }
    }
}

/// The views of two entry lists agree when the lists agree entry by entry.
pub proof fn lemma_entries_view_ext(es: Seq<(Key, Vec<Value>)>, o: ObjV)
    requires
        es.len() == o.len(),
        forall|i: int| 0 <= i < es.len() ==> #[trigger] o[i] == (es[i].0@, values_view(es[i].1@)),
    ensures
        entries_view(es) == o,
{
    lemma_entries_view(es);
    assert(entries_view(es) =~= o);
}

pub proof fn lemma_entries_view_update(es: Seq<(Key, Vec<Value>)>, p: int, e: (Key, Vec<Value>))
    requires
        0 <= p < es.len(),
    ensures
        entries_view(es.update(p, e)) == entries_view(es).update(p, (e.0@, values_view(e.1@))),
{
    lemma_entries_view(es);
    lemma_entries_view(es.update(p, e));
    assert(entries_view(es.update(p, e)) =~= entries_view(es).update(p, (e.0@, values_view(e.1@))));
}

pub proof fn lemma_values_view_push(vs: Seq<Value>, v: Value)
    ensures
        values_view(vs.push(v)) == values_view(vs).push(value_view(v)),
{
    lemma_values_view(vs);
    lemma_values_view(vs.push(v));
    assert(values_view(vs.push(v)) =~= values_view(vs).push(value_view(v)));
}

pub proof fn lemma_entries_view_push(es: Seq<(Key, Vec<Value>)>, e: (Key, Vec<Value>))
    ensures
        entries_view(es.push(e)) == entries_view(es).push((e.0@, values_view(e.1@))),
{
    lemma_entries_view(es);
    lemma_entries_view(es.push(e));
    assert(entries_view(es.push(e)) =~= entries_view(es).push((e.0@, values_view(e.1@))));
}

/// The keys of an object model are strictly increasing.
pub open spec fn keys_sorted(o: ObjV) -> bool {
    forall|i: int, j: int| 0 <= i < j < o.len() ==> key_lt(#[trigger] o[i].0, #[trigger] o[j].0)
}

/// The position of the first entry whose key is not below `k`.
pub open spec fn lower_bound(o: ObjV, k: Seq<char>) -> nat
    decreases o.len(),
{
    if o.len() == 0 {
        0
    } else if key_lt(o[0].0, k) {
        1 + lower_bound(o.drop_first(), k)
    } else {
        0
    }
}

/// Whether the entry at `lower_bound(o, k)` has key `k`.
pub open spec fn has_key_at(o: ObjV, k: Seq<char>, p: int) -> bool {
    p < o.len() && o[p].0 == k
}

/// The values under `k`, if `k` is a key of `o`.
pub open spec fn obj_get(o: ObjV, k: Seq<char>) -> Option<Seq<ValueV>> {
    let p = lower_bound(o, k) as int;
    if has_key_at(o, k, p) {
        Some(o[p].1)
    } else {
        None
    }
}

/// `o` with the values under `k` set to `vs`.
pub open spec fn obj_insert(o: ObjV, k: Seq<char>, vs: Seq<ValueV>) -> ObjV {
    let p = lower_bound(o, k) as int;
    if has_key_at(o, k, p) {
        o.update(p, (k, vs))
    } else {
        o.insert(p, (k, vs))
    }
}

/// `o` without the key `k` and its values.
pub open spec fn obj_remove(o: ObjV, k: Seq<char>) -> ObjV {
    let p = lower_bound(o, k) as int;
    if has_key_at(o, k, p) {
        o.remove(p)
    } else {
        o
    }
}

/// The object that inserting the entries of `es` in order gives: a key given
/// again replaces the values it was given before.
pub open spec fn obj_from_entries(es: ObjV) -> ObjV
    decreases es.len(),
{
    if es.len() == 0 {
        seq![]
    } else {
        obj_insert(obj_from_entries(es.drop_last()), es.last().0, es.last().1)
    }
}

/// `o` with `v` added after the values under `k` (an empty list when `k` is
/// new).
pub open spec fn obj_push(o: ObjV, k: Seq<char>, v: ValueV) -> ObjV {
    let p = lower_bound(o, k) as int;
    if has_key_at(o, k, p) {
        o.update(p, (k, o[p].1.push(v)))
    } else {
        o.insert(p, (k, seq![v]))
    }
}

pub proof fn lemma_lower_bound(o: ObjV, k: Seq<char>)
    ensures
        lower_bound(o, k) <= o.len(),
        forall|j: int| 0 <= j < lower_bound(o, k) ==> key_lt(#[trigger] o[j].0, k),
        lower_bound(o, k) < o.len() ==> !key_lt(o[lower_bound(o, k) as int].0, k),
        keys_sorted(o) ==> forall|j: int|
            lower_bound(o, k) <= j < o.len() ==> !key_lt(#[trigger] o[j].0, k),
    decreases o.len(),
{
    if o.len() > 0 {
        let t = o.drop_first();
        lemma_lower_bound(t, k);
        assert forall|j: int| 0 <= j < lower_bound(o, k) implies key_lt(#[trigger] o[j].0, k) by {
            if j > 0 {
                assert(t[j - 1] == o[j]);
            }
        }
        if lower_bound(o, k) < o.len() && lower_bound(o, k) > 0 {
            assert(t[lower_bound(o, k) - 1] == o[lower_bound(o, k) as int]);
        }
        if keys_sorted(o) {
            assert forall|j: int| lower_bound(o, k) <= j < o.len() implies !key_lt(
                #[trigger] o[j].0,
                k,
            ) by {
                if lower_bound(o, k) == 0 {
                    if j > 0 && key_lt(o[j].0, k) {
                        assert(key_lt(o[0].0, o[j].0));
                        lemma_key_lt_transitive(o[0].0, o[j].0, k);
                    }
                } else {
                    assert(t[j - 1] == o[j]);
                    assert(keys_sorted(t)) by {
                        assert forall|a: int, b: int| 0 <= a < b < t.len() implies key_lt(
                            #[trigger] t[a].0,
                            #[trigger] t[b].0,
                        ) by {
                            assert(t[a] == o[a + 1] && t[b] == o[b + 1]);
                        }
                    }
                }
            }
        }
    }
}

/// A position with all keys before it below `k` and the key at it (if any)
/// not below `k` is the lower bound.
pub proof fn lemma_lower_bound_at(o: ObjV, k: Seq<char>, i: int)
    requires
        0 <= i <= o.len(),
        forall|j: int| 0 <= j < i ==> key_lt(#[trigger] o[j].0, k),
        i < o.len() ==> !key_lt(o[i].0, k),
    ensures
        lower_bound(o, k) == i,
    decreases i,
{
    if i > 0 {
        let t = o.drop_first();
        assert(key_lt(o[0].0, k));
        assert forall|j: int| 0 <= j < i - 1 implies key_lt(#[trigger] t[j].0, k) by {
            assert(t[j] == o[j + 1]);
        }
        if i - 1 < t.len() {
            assert(t[i - 1] == o[i]);
        }
        lemma_lower_bound_at(t, k, i - 1);
    }
}

/// When `k` is not below the key at some position and all before it are
/// below, inserting there keeps the keys sorted.
proof fn lemma_sorted_insert(o: ObjV, k: Seq<char>, vs: Seq<ValueV>, p: int)
    requires
        keys_sorted(o),
        p == lower_bound(o, k),
        !has_key_at(o, k, p),
    ensures
        keys_sorted(o.insert(p, (k, vs))),
{
    lemma_lower_bound(o, k);
    let n = o.insert(p, (k, vs));
    assert forall|i: int, j: int| 0 <= i < j < n.len() implies key_lt(
        #[trigger] n[i].0,
        #[trigger] n[j].0,
    ) by {
        if j < p {
            assert(n[i] == o[i] && n[j] == o[j]);
        } else if j == p {
            assert(n[i] == o[i]);
        } else if i == p {
            assert(n[j] == o[j - 1]);
            assert(!key_lt(o[j - 1].0, k));
            if j - 1 == p {
                lemma_key_lt_total(o[p].0, k);
            } else {
                assert(key_lt(o[p].0, o[j - 1].0));
                lemma_key_lt_total(o[p].0, k);
                if key_lt(o[p].0, k) {
                } else {
                    lemma_key_lt_transitive(k, o[p].0, o[j - 1].0);
                }
            }
        } else if i < p {
            assert(n[i] == o[i] && n[j] == o[j - 1]);
        } else {
            assert(n[i] == o[i - 1] && n[j] == o[j - 1]);
        }
    }
}

proof fn lemma_sorted_update(o: ObjV, p: int, e: (Seq<char>, Seq<ValueV>))
    requires
        keys_sorted(o),
        0 <= p < o.len(),
        o[p].0 == e.0,
    ensures
        keys_sorted(o.update(p, e)),
{
    let n = o.update(p, e);
    assert forall|i: int, j: int| 0 <= i < j < n.len() implies key_lt(
        #[trigger] n[i].0,
        #[trigger] n[j].0,
    ) by {
        assert(n[i].0 == o[i].0 && n[j].0 == o[j].0);
    }
}

pub proof fn lemma_obj_insert_sorted(o: ObjV, k: Seq<char>, vs: Seq<ValueV>)
    requires
        keys_sorted(o),
    ensures
        keys_sorted(obj_insert(o, k, vs)),
{
    let p = lower_bound(o, k) as int;
    lemma_lower_bound(o, k);
    if has_key_at(o, k, p) {
        lemma_sorted_update(o, p, (k, vs));
    } else {
        lemma_sorted_insert(o, k, vs, p);
    }
}

pub proof fn lemma_obj_push_sorted(o: ObjV, k: Seq<char>, v: ValueV)
    requires
        keys_sorted(o),
    ensures
        keys_sorted(obj_push(o, k, v)),
{
    let p = lower_bound(o, k) as int;
    lemma_lower_bound(o, k);
    if has_key_at(o, k, p) {
        lemma_sorted_update(o, p, (k, o[p].1.push(v)));
    } else {
        lemma_sorted_insert(o, k, seq![v], p);
    }
}


/// The model of a [`Vdf`].
pub struct VdfV {
    pub key: Seq<char>,
    pub value: ValueV,
}

/// The model of a [`PartialVdf`].
pub struct PartialVdfV {
    pub key: Seq<char>,
    pub value: ValueV,
    pub bases: Seq<Seq<char>>,
}

impl<'a> View for Vdf<'a> {
    type V = VdfV;

    open spec fn view(&self) -> VdfV {
        VdfV { key: self.key@, value: self.value@ }
    }
}

impl<'a> View for PartialVdf<'a> {
    type V = PartialVdfV;

    open spec fn view(&self) -> PartialVdfV {
        PartialVdfV { key: self.key@, value: self.value@, bases: strings_view(self.bases@) }
    }
}

/// The views of a sequence of strings.
pub open spec fn strings_view(ss: Seq<Cow<str>>) -> Seq<Seq<char>> {
    ss.map_values(|s: Cow<str>| s@)
}

impl<'a> Vdf<'a> {
    /// Creates a [`Vdf`] from a key and a value.
    pub fn new(key: Key<'a>, value: Value<'a>) -> (r: Vdf<'a>)
        ensures
            r.key == key,
            r.value == value,
    {
        Vdf { key, value }
    }
}

impl<'a> From<PartialVdf<'a>> for Vdf<'a> {
    /// Drops the `#base` macros.
    fn from(partial: PartialVdf<'a>) -> (r: Vdf<'a>) {
        Vdf { key: partial.key, value: partial.value }
    }
}

impl<'a> vstd::std_specs::convert::FromSpecImpl<PartialVdf<'a>> for Vdf<'a> {
    open spec fn obeys_from_spec() -> bool {
        true
    }

    open spec fn from_spec(partial: PartialVdf) -> Vdf {
        Vdf { key: partial.key, value: partial.value }
    }
}

impl<'a> Obj<'a> {
    /// Sorted by key with no key twice.
    pub open spec fn wf(&self) -> bool {
        keys_sorted(self@)
    }

    /// Creates an empty object.
    pub fn new() -> (r: Obj<'a>)
        ensures
            r@ == Seq::<(Seq<char>, Seq<ValueV>)>::empty(),
            r.wf(),
    {
        Obj(Vec::new())
    }

    /// The number of keys.
    pub fn len(&self) -> (r: usize)
        ensures
            r == self@.len(),
    {
        proof {
            lemma_entries_view(self.0@);
        }
        self.0.len()
    }

    /// Whether the object has no key.
    pub fn is_empty(&self) -> (r: bool)
        ensures
            r == (self@.len() == 0),
    {
        proof {
            lemma_entries_view(self.0@);
        }
        self.0.len() == 0
    }

    /// The position of the first entry whose key is not below `key`.
    pub fn lower_bound(&self, key: &str) -> (p: usize)
        ensures
            p == lower_bound(self@, key@),
    {
        proof {
            lemma_entries_view(self.0@);
        }
        let mut i: usize = 0;
        while i < self.0.len() && str_lt(cow_str(&self.0[i].0), key)
            invariant
                i <= self.0.len(),
                self@.len() == self.0@.len(),
                forall|j: int| 0 <= j < self.0@.len() ==> #[trigger] self@[j].0 == self.0@[j].0@,
                forall|j: int| 0 <= j < i ==> key_lt(#[trigger] self@[j].0, key@),
            decreases self.0.len() - i,
        {
            i += 1;
        }
        proof {
            lemma_lower_bound_at(self@, key@, i as int);
        }
        i
    }

    /// Whether `key` is a key of the object.
    pub fn contains_key(&self, key: &str) -> (r: bool)
        requires
            self.wf(),
        ensures
            r == (obj_get(self@, key@) is Some),
    {
        let p = self.lower_bound(key);
        proof {
            lemma_entries_view(self.0@);
            lemma_lower_bound(self@, key@);
        }
        p < self.0.len() && str_eq(cow_str(&self.0[p].0), key)
    }

    /// The values under `key`.
    pub fn get(&self, key: &str) -> (r: Option<&Vec<Value<'a>>>)
        requires
            self.wf(),
        ensures
            r is Some == (obj_get(self@, key@) is Some),
            r matches Some(vs) ==> obj_get(self@, key@) == Some(values_view(vs@)),
    {
        let p = self.lower_bound(key);
        proof {
            lemma_entries_view(self.0@);
            lemma_lower_bound(self@, key@);
        }
        if p < self.0.len() && str_eq(cow_str(&self.0[p].0), key) {
            Some(&self.0[p].1)
        } else {
            None
        }
    }

    /// The values under `key`, to change in place.
    pub fn get_mut(&mut self, key: &str) -> (r: Option<&mut Vec<Value<'a>>>)
        requires
            old(self).wf(),
        ensures
            obj_get(old(self)@, key@) is None ==> r is None && final(self)@ == old(self)@,
            obj_get(old(self)@, key@) matches Some(vs) ==> (r matches Some(v) && values_view(v@)
                == vs && final(self)@ == obj_insert(old(self)@, key@, values_view(final(v)@))),
            final(self).wf(),
    {
        let p = self.lower_bound(key);
        let ghost o = self@;
        proof {
            lemma_entries_view(self.0@);
            lemma_lower_bound(o, key@);
        }
        if p < self.0.len() && str_eq(cow_str(&self.0[p].0), key) {
            let ghost es = self.0@;
            let entry = &mut self.0[p];
            let values = &mut entry.1;
            proof {
                assert(values_view(values@) == o[p as int].1);
                lemma_entries_view_update(es, p as int, (es[p as int].0, *final(values)));
                lemma_obj_insert_sorted(o, key@, values_view(final(values)@));
            }
            Some(values)
        } else {
            None
        }
    }

    /// The keys, in order.
    pub fn keys(&self) -> (r: Vec<&str>)
        ensures
            r@.len() == self@.len(),
            forall|i: int| 0 <= i < r@.len() ==> #[trigger] r@[i]@ == self@[i].0,
    {
        proof {
            lemma_entries_view(self.0@);
        }
        let mut r: Vec<&str> = Vec::new();
        let mut i: usize = 0;
        while i < self.0.len()
            invariant
                i <= self.0.len(),
                r@.len() == i,
                self@.len() == self.0@.len(),
                forall|j: int| 0 <= j < self.0@.len() ==> #[trigger] self@[j].0 == self.0@[j].0@,
                forall|j: int| 0 <= j < i ==> #[trigger] r@[j]@ == self@[j].0,
            decreases self.0.len() - i,
        {
            r.push(cow_str(&self.0[i].0));
            i += 1;
        }
        r
    }

    /// Removes `key` with its values, handing the values back.
    pub fn remove(&mut self, key: &str) -> (r: Option<Vec<Value<'a>>>)
        requires
            old(self).wf(),
        ensures
            final(self)@ == obj_remove(old(self)@, key@),
            r is Some == (obj_get(old(self)@, key@) is Some),
            r matches Some(vs) ==> obj_get(old(self)@, key@) == Some(values_view(vs@)),
            final(self).wf(),
    {
        let p = self.lower_bound(key);
        let ghost o = self@;
        let ghost es = self.0@;
        proof {
            lemma_entries_view(es);
            lemma_lower_bound(o, key@);
        }
        if p < self.0.len() && str_eq(cow_str(&self.0[p].0), key) {
            let (_, values) = self.0.remove(p);
            proof {
                lemma_entries_view_ext(self.0@, obj_remove(o, key@));
            }
            Some(values)
        } else {
            None
        }
    }

    /// Sets the values under `key`, handing back those it held before.
    pub fn insert(&mut self, key: Key<'a>, values: Vec<Value<'a>>) -> (r: Option<Vec<Value<'a>>>)
        requires
            old(self).wf(),
        ensures
            final(self)@ == obj_insert(old(self)@, key@, values_view(values@)),
            r is Some == (obj_get(old(self)@, key@) is Some),
            r matches Some(vs) ==> obj_get(old(self)@, key@) == Some(values_view(vs@)),
            final(self).wf(),
    {
        let p = self.lower_bound(cow_str(&key));
        let ghost o = self@;
        let ghost es = self.0@;
        proof {
            lemma_entries_view(es);
            lemma_lower_bound(o, key@);
            if old(self).wf() {
                lemma_obj_insert_sorted(o, key@, values_view(values@));
            }
        }
        if p < self.0.len() && str_eq(cow_str(&self.0[p].0), cow_str(&key)) {
            let (_, previous) = self.0.remove(p);
            self.0.insert(p, (key, values));
            proof {
                lemma_entries_view_ext(self.0@, obj_insert(o, key@, values_view(values@)));
            }
            Some(previous)
        } else {
            self.0.insert(p, (key, values));
            proof {
                lemma_entries_view_ext(self.0@, obj_insert(o, key@, values_view(values@)));
            }
            None
        }
    }

    /// Adds `value` after the values under `key`, starting a new list when
    /// `key` is new.
    pub fn push_value(&mut self, key: Key<'a>, value: Value<'a>)
        requires
            old(self).wf(),
        ensures
            entries_borrowed(old(self).0@) && key is Borrowed && value_borrowed(value)
                ==> entries_borrowed(final(self).0@),
            final(self)@ == obj_push(old(self)@, key@, value@),
            final(self).wf(),
    {
        let p = self.lower_bound(cow_str(&key));
        let ghost o = self@;
        let ghost es = self.0@;
        proof {
            lemma_entries_view(es);
            lemma_lower_bound(o, key@);
            if old(self).wf() {
                lemma_obj_push_sorted(o, key@, value@);
            }
        }
        let ghost borrowed = entries_borrowed(es) && key is Borrowed && value_borrowed(value);
        proof {
            lemma_entries_borrowed(es);
        }
        if p < self.0.len() && str_eq(cow_str(&self.0[p].0), cow_str(&key)) {
            let (k, mut values) = self.0.remove(p);
            proof {
                lemma_values_view_push(values@, value);
                lemma_values_borrowed(values@);
                lemma_values_borrowed(values@.push(value));
                if borrowed {
                    assert(values@.push(value)[values@.len() as int] == value);
                    assert forall|j: int| 0 <= j < values@.len() implies value_borrowed(
                        #[trigger] values@.push(value)[j],
                    ) by {
                        assert(values@.push(value)[j] == values@[j]);
                        assert(es[p as int].1@[j] == values@[j]);
                    }
                }
            }
            values.push(value);
            self.0.insert(p, (k, values));
            proof {
                lemma_entries_view_ext(self.0@, obj_push(o, key@, value@));
                lemma_entries_borrowed(self.0@);
                if borrowed {
                    assert forall|i: int| 0 <= i < self.0@.len() implies (#[trigger] self.0@[i]).0 is Borrowed
                        && values_borrowed(self.0@[i].1@) by {
                        if i != p {
                            assert(self.0@[i] == es[i]);
                        }
                    }
                }
            }
        } else {
            let mut values = Vec::new();
            values.push(value);
            proof {
                assert(values_view(values@) == seq![value@]) by {
                    lemma_values_view(values@);
                    assert(values_view(values@) =~= seq![value@]);
                }
                lemma_values_borrowed(values@);
                if borrowed {
                    assert(values@[0] == value);
                }
            }
            self.0.insert(p, (key, values));
            proof {
                lemma_entries_view_ext(self.0@, obj_push(o, key@, value@));
                lemma_entries_borrowed(self.0@);
                if borrowed {
                    assert forall|i: int| 0 <= i < self.0@.len() implies (#[trigger] self.0@[i]).0 is Borrowed
                        && values_borrowed(self.0@[i].1@) by {
                        if i < p {
                            assert(self.0@[i] == es[i]);
                        } else if i > p {
                            assert(self.0@[i] == es[i - 1]);
                        }
                    }
                }
            }
        }
    }

    /// The object holding `pairs`, inserted in order: a key given again
    /// replaces the values it was given before.
    pub fn from_pairs(pairs: Vec<(Key<'a>, Vec<Value<'a>>)>) -> (r: Obj<'a>)
        ensures
            r@ == obj_from_entries(entries_view(pairs@)),
            r.wf(),
    {
        let mut obj = Obj::new();
        let ghost all = pairs@;
        for pair in it: pairs.into_iter()
            invariant
                it.seq() == all,
                obj.wf(),
                obj@ == obj_from_entries(entries_view(all.take(it.index() as int))),
        {
            let ghost i = it.index();
            assert(pair == all[i]);
            proof {
                lemma_entries_view_push(all.take(i), pair);
                assert(all.take(i + 1) =~= all.take(i).push(pair));
                assert(entries_view(all.take(i + 1)).drop_last() =~= entries_view(all.take(i)));
            }
            let (key, values) = pair;
            obj.insert(key, values);
        }
        assert(all.take(all.len() as int) =~= all);
        obj
    }

    /// The entries, sorted by key.
    pub fn into_inner(self) -> (r: Vec<(Key<'a>, Vec<Value<'a>>)>)
        ensures
            entries_view(r@) == self@,
    {
        self.0
    }
}

impl<'a> Default for Obj<'a> {
    fn default() -> (r: Obj<'a>)
        ensures
            r@ == Seq::<(Seq<char>, Seq<ValueV>)>::empty(),
            r.wf(),
    {
        Obj::new()
    }
}

impl<'a> Value<'a> {
    /// Whether the value is a string.
    pub fn is_str(&self) -> (r: bool)
        ensures
            r == (self is Str),
    {
        self.get_str().is_some()
    }

    /// Whether the value is an object.
    pub fn is_obj(&self) -> (r: bool)
        ensures
            r == (self is Obj),
    {
        self.get_obj().is_some()
    }

    /// The string, if the value is one.
    pub fn get_str(&self) -> (r: Option<&Cow<'a, str>>)
        ensures
            r is Some == (self is Str),
            r matches Some(s) ==> self@ == ValueV::Str(s@) && *self == Value::Str(*s),
    {
        if let Value::Str(s) = self {
            Some(s)
        } else {
            None
        }
    }

    /// The object, if the value is one.
    pub fn get_obj(&self) -> (r: Option<&Obj<'a>>)
        ensures
            r is Some == (self is Obj),
            r matches Some(o) ==> self@ == ValueV::Obj(o@) && *self == Value::Obj(*o),
    {
        if let Value::Obj(o) = self {
            Some(o)
        } else {
            None
        }
    }

    /// The string, mutably, if the value is one.
    pub fn get_mut_str(&mut self) -> (r: Option<&mut Cow<'a, str>>)
        ensures
            r is Some == (*old(self) is Str),
            r matches Some(s) ==> *old(self) == Value::Str(*s) && *final(self) == Value::Str(
                *final(s),
            ),
            r is None ==> *final(self) == *old(self),
    {
        if let Value::Str(s) = self {
            Some(s)
        } else {
            None
        }
    }

    /// The object, mutably, if the value is one.
    pub fn get_mut_obj(&mut self) -> (r: Option<&mut Obj<'a>>)
        ensures
            r is Some == (*old(self) is Obj),
            r matches Some(o) ==> *old(self) == Value::Obj(*o) && *final(self) == Value::Obj(
                *final(o),
            ),
            r is None ==> *final(self) == *old(self),
    {
        if let Value::Obj(o) = self {
            Some(o)
        } else {
            None
        }
    }

    /// The string of a string value.
    pub fn unwrap_str(self) -> (r: Cow<'a, str>)
        requires
            self is Str,
        ensures
            self == Value::Str(r),
    {
        self.expect_str("Called `unwrap_str` on a `Value::Obj` variant")
    }

    /// The object of an object value.
    pub fn unwrap_obj(self) -> (r: Obj<'a>)
        requires
            self is Obj,
        ensures
            self == Value::Obj(r),
    {
        self.expect_obj("Called `unwrap_obj` on a `Value::Str` variant")
    }

    /// The string of a string value; `msg` says what went wrong otherwise.
    pub fn expect_str(self, msg: &str) -> (r: Cow<'a, str>)
        requires
            self is Str,
        ensures
            self == Value::Str(r),
    {
        match self {
            Value::Str(s) => s,
            Value::Obj(_) => {
                proof {
                    assert(false);
                }
                Cow::Borrowed("")
            },
        }
    }

    /// The object of an object value; `msg` says what went wrong otherwise.
    pub fn expect_obj(self, msg: &str) -> (r: Obj<'a>)
        requires
            self is Obj,
        ensures
            self == Value::Obj(r),
    {
        match self {
            Value::Obj(o) => o,
            Value::Str(_) => {
                proof {
                    assert(false);
                }
                Obj::new()
            },
        }
    }
}

/// A copy of `v`.
pub fn clone_value<'a>(v: &Value<'a>) -> (r: Value<'a>)
    ensures
        r@ == v@,
    decreases v, 2nat,
{
    match v {
        Value::Str(s) => Value::Str(clone_cow(s)),
        Value::Obj(o) => Value::Obj(clone_obj(o)),
    }
}

/// A copy of `o`.
pub fn clone_obj<'a>(o: &Obj<'a>) -> (r: Obj<'a>)
    ensures
        r@ == o@,
    decreases o, 1nat,
{
    let mut out: Vec<(Key, Vec<Value>)> = Vec::new();
    let mut i: usize = 0;
    while i < o.0.len()
        invariant
            i <= o.0.len(),
            entries_view(out@) == entries_view(o.0@.take(i as int)),
        decreases o.0.len() - i,
    {
        let entry = &o.0[i];
        proof {
            assert(decreases_to!(o => o.0));
            assert(decreases_to!(o.0 => o.0@));
            assert(decreases_to!(o.0@ => o.0@[i as int]));
            assert(decreases_to!(o.0@[i as int] => o.0@[i as int].1));
        }
        let values = clone_values(&entry.1);
        let e = (clone_cow(&entry.0), values);
        proof {
            lemma_entries_view_push(out@, e);
            lemma_entries_view_push(o.0@.take(i as int), o.0@[i as int]);
            assert(o.0@.take(i + 1) =~= o.0@.take(i as int).push(o.0@[i as int]));
        }
        out.push(e);
        i += 1;
    }
    assert(o.0@.take(o.0@.len() as int) =~= o.0@);
    Obj(out)
}

/// A copy of `vs`.
pub fn clone_values<'a>(vs: &Vec<Value<'a>>) -> (r: Vec<Value<'a>>)
    ensures
        values_view(r@) == values_view(vs@),
    decreases vs, 0nat,
{
    let mut out: Vec<Value> = Vec::new();
    let mut i: usize = 0;
    while i < vs.len()
        invariant
            i <= vs.len(),
            values_view(out@) == values_view(vs@.take(i as int)),
        decreases vs.len() - i,
    {
        proof {
            assert(decreases_to!(vs => vs@));
            assert(decreases_to!(vs@ => vs@[i as int]));
        }
        let v = clone_value(&vs[i]);
        proof {
            lemma_values_view_push(out@, v);
            lemma_values_view_push(vs@.take(i as int), vs@[i as int]);
            assert(vs@.take(i + 1) =~= vs@.take(i as int).push(vs@[i as int]));
        }
        out.push(v);
        i += 1;
    }
    assert(vs@.take(vs@.len() as int) =~= vs@);
    out
}

impl<'a> Clone for Value<'a> {
    /// A copy of the value, with equal contents.
    fn clone(&self) -> (r: Value<'a>)
        ensures
            r@ == self@,
    {
        clone_value(self)
    }
}

impl<'a> Clone for Obj<'a> {
    /// A copy of the object, with equal contents.
    fn clone(&self) -> (r: Obj<'a>)
        ensures
            r@ == self@,
    {
        clone_obj(self)
    }
}

impl<'a> Clone for Vdf<'a> {
    /// A copy of the pair, with equal contents.
    fn clone(&self) -> (r: Vdf<'a>)
        ensures
            r@ == self@,
    {
        Vdf { key: clone_cow(&self.key), value: clone_value(&self.value) }
    }
}

impl<'a> Clone for PartialVdf<'a> {
    /// A copy of the pair and its base macros, with equal contents.
    fn clone(&self) -> (r: PartialVdf<'a>)
        ensures
            r@ == self@,
    {
        let mut bases: Vec<Cow<'a, str>> = Vec::new();
        let mut i: usize = 0;
        while i < self.bases.len()
            invariant
                i <= self.bases.len(),
                strings_view(bases@) == strings_view(self.bases@.take(i as int)),
            decreases self.bases.len() - i,
        {
            let b = clone_cow(&self.bases[i]);
            proof {
                assert(self.bases@.take(i + 1) =~= self.bases@.take(i as int).push(self.bases@[i as int]));
                assert(strings_view(bases@.push(b)) =~= strings_view(bases@).push(b@));
                assert(strings_view(self.bases@.take(i + 1)) =~= strings_view(self.bases@.take(i as int)).push(self.bases@[i as int]@));
            }
            bases.push(b);
            i += 1;
        }
        assert(self.bases@.take(self.bases@.len() as int) =~= self.bases@);
        PartialVdf { key: clone_cow(&self.key), value: clone_value(&self.value), bases }
    }
}

} // verus!
