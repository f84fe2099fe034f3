//! Rendered text reads back as the value it was rendered from.
use vstd::prelude::*;

use crate::order::{key_lt, lemma_key_lt_irreflexive, lemma_key_lt_transitive};
use crate::text::grammar::{
    base_macro, base_macros, eat_blanks, vdf_text, eat_comment, eat_filler, eat_line_ends, eat_space, is_blank, object, object_rest,
    pair, quoted, quoted_rest, starts_with, string, unescape, value,
};
use crate::text::render::{
    entries_text, escape, escape_char, pair_text, quoted_text, tabs, value_text, values_text,
};
use crate::value::{
    keys_sorted, lemma_lower_bound, lemma_obj_push_sorted, PartialVdfV, lemma_lower_bound_at, lower_bound, obj_push, ObjV, ValueV,
};

verus! {

pub proof fn lemma_escape_concat(a: Seq<char>, b: Seq<char>)
    ensures
        escape(a + b) == escape(a) + escape(b),
    decreases b.len(),
{
    if b.len() == 0 {
        assert(a + b =~= a);
        assert(escape(a) + escape(b) =~= escape(a));
    } else {
        lemma_escape_concat(a, b.drop_last());
        assert((a + b).drop_last() =~= a + b.drop_last());
        assert((a + b).last() == b.last());
        assert(escape(a + b) =~= escape(a) + escape(b));
    }
}

/// An escaped string followed by `"` reads back as the string.
pub proof fn lemma_quoted_rest_escape(s: Seq<char>, rest: Seq<char>, acc: Seq<char>)
    ensures
        quoted_rest(escape(s) + seq!['"'] + rest, true, acc) == Some((acc + s, rest)),
    decreases s.len(),
{
    let t = escape(s) + seq!['"'] + rest;
    if s.len() == 0 {
        assert(t =~= seq!['"'] + rest);
        assert(t.drop_first() =~= rest);
        assert(acc + s =~= acc);
    } else {
        let c = s[0];
        let s1 = s.drop_first();
        lemma_escape_concat(seq![c], s1);
        assert(seq![c] + s1 =~= s);
        assert(escape(seq![c]) =~= escape_char(c)) by {
            assert(seq![c].drop_last() =~= Seq::<char>::empty());
            assert(escape(Seq::<char>::empty()) == Seq::<char>::empty());
            assert(seq![c].last() == c);
            assert(escape(seq![c]) == escape(seq![c].drop_last()) + escape_char(c));
        }
        let t1 = escape(s1) + seq!['"'] + rest;
        assert(t =~= escape_char(c) + t1);
        lemma_quoted_rest_escape(s1, rest, acc.push(c));
        assert(acc.push(c) + s1 =~= acc + s);
        if c == '\n' || c == '\r' || c == '\t' || c == '"' || c == '\\' {
            assert(t.skip(2) =~= t1);
            assert(unescape(t[1]) == Some(c));
        } else {
            assert(t.drop_first() =~= t1);
        }
    }
}

/// A quoted, escaped string reads back as the string.
pub proof fn lemma_quoted_text(s: Seq<char>, rest: Seq<char>)
    ensures
        string(quoted_text(s) + rest, true) == Some((s, rest)),
{
    let t = quoted_text(s) + rest;
    assert(t.drop_first() =~= escape(s) + seq!['"'] + rest);
    lemma_quoted_rest_escape(s, rest, seq![]);
    assert(Seq::<char>::empty() + s =~= s);
}


/// The values that parsing yields: objects sorted by key, with no key
/// twice and no key without a value, all the way down.
pub open spec fn value_wf(v: ValueV) -> bool
    decreases v,
{
    match v {
        ValueV::Str(_) => true,
        ValueV::Obj(o) => keys_sorted(o) && forall|i: int|
            0 <= i < o.len() ==> (#[trigger] o[i]).1.len() > 0 && forall|j: int|
                0 <= j < o[i].1.len() ==> value_wf(#[trigger] o[i].1[j]),
    }
}


/// Characters that reading skips between tokens.
pub open spec fn is_filler(w: Seq<char>) -> bool {
    forall|i: int| 0 <= i < w.len() ==> #[trigger] w[i] == '\t' || w[i] == ' ' || w[i] == '\n'
}

pub proof fn lemma_eat_space_suffix(r: Seq<char>)
    ensures
        eat_space(r).len() <= r.len(),
        eat_space(r) == r.skip(r.len() - eat_space(r).len()),
    decreases r.len(),
{
    if r.len() > 0 && (is_blank(r[0]) || r[0] == '\n') {
        lemma_eat_space_suffix(r.drop_first());
        assert(r.drop_first().skip(r.drop_first().len() - eat_space(r).len()) =~= r.skip(
            r.len() - eat_space(r).len(),
        ));
    } else if r.len() > 1 && r[0] == '\r' && r[1] == '\n' {
        lemma_eat_space_suffix(r.skip(2));
        assert(r.skip(2).skip(r.skip(2).len() - eat_space(r).len()) =~= r.skip(
            r.len() - eat_space(r).len(),
        ));
    } else {
        assert(r.skip(0) =~= r);
    }
}

pub proof fn lemma_eat_space_skip(w: Seq<char>, y: Seq<char>)
    requires
        is_filler(w),
    ensures
        eat_space(w + y) == eat_space(y),
    decreases w.len(),
{
    if w.len() == 0 {
        assert(w + y =~= y);
    } else {
        assert((w + y).drop_first() =~= w.drop_first() + y);
        assert((w + y)[0] == w[0]);
        lemma_eat_space_skip(w.drop_first(), y);
    }
}

pub proof fn lemma_eat_filler_skip(w: Seq<char>, y: Seq<char>)
    requires
        is_filler(w),
    ensures
        eat_filler(w + y) == eat_filler(y),
{
    if w.len() == 0 {
        assert(w + y =~= y);
    } else {
        lemma_eat_space_skip(w, y);
        lemma_eat_space_suffix(y);
        if eat_space(y).len() == y.len() {
            assert(y.skip(0) =~= y);
        }
    }
}

/// Before a quote, a brace or the end, there is nothing to skip.
pub proof fn lemma_eat_filler_at_token(r: Seq<char>)
    requires
        r.len() == 0 || r[0] == '"' || r[0] == '{' || r[0] == '}',
    ensures
        eat_filler(r) == Some(r),
{
    assert(eat_space(r) == r);
    if r.len() >= 2 {
        assert(r.take(2)[0] == r[0]);
    }
    assert(!starts_with(r, seq!['/', '/']));
    assert(eat_comment(r) == Some(r));
}

pub proof fn lemma_entries_text_concat(a: ObjV, b: ObjV, n: nat)
    ensures
        entries_text(a + b, n) == entries_text(a, n) + entries_text(b, n),
    decreases b.len(),
{
    if b.len() == 0 {
        assert(a + b =~= a);
        assert(entries_text(a, n) + entries_text(b, n) =~= entries_text(a, n));
    } else {
        lemma_entries_text_concat(a, b.drop_last(), n);
        assert((a + b).drop_last() =~= a + b.drop_last());
        assert((a + b).last() == b.last());
        assert(entries_text(a + b, n) =~= entries_text(a, n) + entries_text(b, n));
    }
}

pub proof fn lemma_values_text_concat(k: Seq<char>, a: Seq<ValueV>, b: Seq<ValueV>, n: nat)
    ensures
        values_text(k, a + b, n) == values_text(k, a, n) + values_text(k, b, n),
    decreases b.len(),
{
    if b.len() == 0 {
        assert(a + b =~= a);
        assert(values_text(k, a, n) + values_text(k, b, n) =~= values_text(k, a, n));
    } else {
        lemma_values_text_concat(k, a, b.drop_last(), n);
        assert((a + b).drop_last() =~= a + b.drop_last());
        assert((a + b).last() == b.last());
        assert(values_text(k, a + b, n) =~= values_text(k, a, n) + values_text(k, b, n));
    }
}

/// The text of entries, split after the first.
pub proof fn lemma_entries_text_first(o: ObjV, n: nat)
    requires
        o.len() > 0,
    ensures
        entries_text(o, n) == values_text(o[0].0, o[0].1, n) + entries_text(o.drop_first(), n),
{
    lemma_entries_text_concat(seq![o[0]], o.drop_first(), n);
    assert(seq![o[0]] + o.drop_first() =~= o);
    assert(seq![o[0]].drop_last() =~= Seq::<(Seq<char>, Seq<ValueV>)>::empty());
    assert(entries_text(Seq::<(Seq<char>, Seq<ValueV>)>::empty(), n) == Seq::<char>::empty());
    assert(seq![o[0]].last() == o[0]);
    assert(entries_text(seq![o[0]], n) == entries_text(seq![o[0]].drop_last(), n) + values_text(
        o[0].0,
        o[0].1,
        n,
    ));
    assert(entries_text(seq![o[0]], n) =~= values_text(o[0].0, o[0].1, n));
}

/// The text of values, split after the first.
pub proof fn lemma_values_text_first(k: Seq<char>, vs: Seq<ValueV>, n: nat)
    requires
        vs.len() > 0,
    ensures
        values_text(k, vs, n) == pair_text(k, vs[0], n) + values_text(k, vs.drop_first(), n),
{
    lemma_values_text_concat(k, seq![vs[0]], vs.drop_first(), n);
    assert(seq![vs[0]] + vs.drop_first() =~= vs);
    assert(seq![vs[0]].drop_last() =~= Seq::<ValueV>::empty());
    assert(values_text(k, Seq::<ValueV>::empty(), n) == Seq::<char>::empty());
    assert(seq![vs[0]].last() == vs[0]);
    assert(values_text(k, seq![vs[0]], n) == values_text(k, seq![vs[0]].drop_last(), n)
        + pair_text(k, vs[0], n));
    assert(values_text(k, seq![vs[0]], n) =~= pair_text(k, vs[0], n));
}


pub proof fn lemma_eat_filler_len(r: Seq<char>)
    ensures
        eat_filler(r) matches Some(x) ==> x.len() <= r.len(),
    decreases r.len(),
{
    let r1 = eat_space(r);
    if r1.len() < r.len() {
        lemma_eat_filler_len(r1);
    } else {
        match eat_comment(r) {
            None => {},
            Some(r2) => if r2.len() < r.len() {
                lemma_eat_filler_len(r2);
            },
        }
    }
}

/// The values under `k` added one after the other.
pub open spec fn push_values(acc: ObjV, k: Seq<char>, vs: Seq<ValueV>) -> ObjV
    decreases vs.len(),
{
    if vs.len() == 0 {
        acc
    } else {
        push_values(obj_push(acc, k, vs[0]), k, vs.drop_first())
    }
}

/// The values of the entries of `o` added one after the other.
pub open spec fn push_entries(acc: ObjV, o: ObjV) -> ObjV
    decreases o.len(),
{
    if o.len() == 0 {
        acc
    } else {
        push_entries(push_values(acc, o[0].0, o[0].1), o.drop_first())
    }
}

/// The text of a value that follows the blanks after its key.
pub open spec fn body_text(v: ValueV, n: nat) -> Seq<char> {
    match v {
        ValueV::Str(s) => quoted_text(s),
        ValueV::Obj(o) => seq!['{', '\n'] + entries_text(o, n + 1) + tabs(n) + seq!['}'],
    }
}

/// The blanks between a key and the text of its value.
pub open spec fn gap_text(v: ValueV, n: nat) -> Seq<char> {
    match v {
        ValueV::Str(_) => seq!['\t'],
        ValueV::Obj(_) => seq!['\n'] + tabs(n),
    }
}

pub proof fn lemma_pair_text_parts(k: Seq<char>, v: ValueV, n: nat)
    ensures
        pair_text(k, v, n) == tabs(n) + quoted_text(k) + gap_text(v, n) + body_text(v, n)
            + seq!['\n'],
        is_filler(gap_text(v, n)),
{
    match v {
        ValueV::Str(s) => {
            assert(pair_text(k, v, n) =~= tabs(n) + quoted_text(k) + gap_text(v, n) + body_text(
                v,
                n,
            ) + seq!['\n']);
        },
        ValueV::Obj(o) => {
            assert(pair_text(k, v, n) =~= tabs(n) + quoted_text(k) + gap_text(v, n) + body_text(
                v,
                n,
            ) + seq!['\n']);
        },
    }
}

/// The text of a value reads back as the value.
pub proof fn lemma_value_roundtrip(v: ValueV, n: nat, rest: Seq<char>)
    requires
        value_wf(v),
    ensures
        value(body_text(v, n) + rest, true) == Some((v, rest)),
    decreases v, 1nat,
{
    match v {
        ValueV::Str(s) => {
            let r = body_text(v, n) + rest;
            lemma_quoted_text(s, rest);
            assert(r[0] == '"');
        },
        ValueV::Obj(o) => {
            let e = entries_text(o, n + 1);
            let t = tabs(n) + seq!['}'] + rest;
            let r = body_text(v, n) + rest;
            assert(r =~= seq!['{'] + (seq!['\n'] + (e + t)));
            assert(r.drop_first() =~= seq!['\n'] + (e + t));
            lemma_eat_filler_skip(seq!['\n'], e + t);
            lemma_eat_filler_skip(tabs(n), seq!['}'] + rest);
            lemma_eat_filler_at_token(seq!['}'] + rest);
            assert(t =~= tabs(n) + (seq!['}'] + rest));
            assert((seq!['}'] + rest).drop_first() =~= rest);
            lemma_entries_roundtrip(o, n + 1, t, seq!['}'] + rest, seq![]);
            lemma_eat_filler_len(e + t);
            lemma_push_entries(seq![], o);
            assert(Seq::<(Seq<char>, Seq<ValueV>)>::empty() + o =~= o);
        },
    }
}

/// The text of entries followed by a closing brace reads back as the
/// entries added to `acc`.
pub proof fn lemma_entries_roundtrip(o: ObjV, m: nat, t: Seq<char>, t1: Seq<char>, acc: ObjV)
    requires
        forall|i: int, j: int|
            0 <= i < o.len() && 0 <= j < o[i].1.len() ==> value_wf(#[trigger] o[i].1[j]),
        eat_filler(t) == Some(t1),
        t1.len() > 0,
        t1[0] == '}',
    ensures
        eat_filler(entries_text(o, m) + t) matches Some(x) && object_rest(x, true, acc) == Some(
            (ValueV::Obj(push_entries(acc, o)), t1.drop_first()),
        ),
    decreases o, 0nat,
{
    if o.len() == 0 {
        assert(entries_text(o, m) + t =~= t);
    } else {
        let k = o[0].0;
        let vs = o[0].1;
        let o1 = o.drop_first();
        let t2 = entries_text(o1, m) + t;
        lemma_entries_text_first(o, m);
        assert(entries_text(o, m) + t =~= values_text(k, vs, m) + t2);
        assert forall|i: int, j: int|
            0 <= i < o1.len() && 0 <= j < o1[i].1.len() implies value_wf(#[trigger] o1[i].1[j]) by {
            assert(o1[i] == o[i + 1]);
        }
        assert forall|j: int| 0 <= j < vs.len() implies value_wf(#[trigger] vs[j]) by {
            assert(vs[j] == o[0].1[j]);
        }
        lemma_entries_roundtrip(o1, m, t, t1, push_values(acc, k, vs));
        let y1 = eat_filler(t2)->0;
        lemma_values_roundtrip(k, vs, m, t2, y1, acc);
    }
}

/// A key and its value read back as such inside an object.
pub proof fn lemma_pair_roundtrip(k: Seq<char>, v: ValueV, m: nat, y2: Seq<char>, acc: ObjV)
    requires
        value_wf(v),
    ensures
        ({
            let core = quoted_text(k) + gap_text(v, m) + body_text(v, m) + seq!['\n'] + y2;
            &&& core.len() > 0
            &&& core[0] == '"'
            &&& object_rest(core, true, acc) == match eat_filler(y2) {
                None => None,
                Some(y3) => object_rest(y3, true, obj_push(acc, k, v)),
            }
        }),
    decreases v, 2nat,
{
    let body = body_text(v, m);
    let gap = gap_text(v, m);
    let core = quoted_text(k) + gap + body + seq!['\n'] + y2;
    lemma_pair_text_parts(k, v, m);
    // the key
    assert(core =~= quoted_text(k) + (gap + body + seq!['\n'] + y2));
    lemma_quoted_text(k, gap + body + seq!['\n'] + y2);
    // the blanks before the value
    assert(gap + body + seq!['\n'] + y2 =~= gap + (body + (seq!['\n'] + y2)));
    lemma_eat_filler_skip(gap, body + (seq!['\n'] + y2));
    assert(body[0] == '"' || body[0] == '{');
    lemma_eat_filler_at_token(body + (seq!['\n'] + y2));
    // the value
    lemma_value_roundtrip(v, m, seq!['\n'] + y2);
    assert(pair(core, true) == Some((k, v, seq!['\n'] + y2)));
    // what follows the value
    lemma_eat_filler_skip(seq!['\n'], y2);
    lemma_eat_filler_len(y2);
    assert(core[0] == '"');
}

/// The text of the values under one key reads back as those values added
/// to `acc`, up to what follows.
pub proof fn lemma_values_roundtrip(
    k: Seq<char>,
    vs: Seq<ValueV>,
    m: nat,
    y: Seq<char>,
    y1: Seq<char>,
    acc: ObjV,
)
    requires
        forall|j: int| 0 <= j < vs.len() ==> value_wf(#[trigger] vs[j]),
        eat_filler(y) == Some(y1),
    ensures
        eat_filler(values_text(k, vs, m) + y) matches Some(x) && object_rest(x, true, acc)
            == object_rest(y1, true, push_values(acc, k, vs)),
    decreases vs, 0nat,
{
    if vs.len() == 0 {
        assert(values_text(k, vs, m) + y =~= y);
    } else {
        let v = vs[0];
        let vs1 = vs.drop_first();
        let y2 = values_text(k, vs1, m) + y;
        lemma_values_text_first(k, vs, m);
        lemma_pair_text_parts(k, v, m);
        let core = quoted_text(k) + gap_text(v, m) + body_text(v, m) + seq!['\n'] + y2;
        assert(values_text(k, vs, m) + y =~= tabs(m) + core);
        assert forall|j: int| 0 <= j < vs1.len() implies value_wf(#[trigger] vs1[j]) by {
            assert(vs1[j] == vs[j + 1]);
        }
        lemma_pair_roundtrip(k, v, m, y2, acc);
        lemma_eat_filler_skip(tabs(m), core);
        lemma_eat_filler_at_token(core);
        lemma_values_roundtrip(k, vs1, m, y, y1, obj_push(acc, k, v));
    }
}

/// Adding the values under a key above all keys of `a` to a list that
/// already holds `pre` appends them.
pub proof fn lemma_push_values_last(
    a: ObjV,
    k: Seq<char>,
    pre: Seq<ValueV>,
    vs: Seq<ValueV>,
)
    requires
        forall|i: int| 0 <= i < a.len() ==> key_lt(#[trigger] a[i].0, k),
        pre.len() > 0,
    ensures
        push_values(a.push((k, pre)), k, vs) == a.push((k, pre + vs)),
    decreases vs.len(),
{
    let s = a.push((k, pre));
    if vs.len() == 0 {
        assert(pre + vs =~= pre);
    } else {
        lemma_key_lt_irreflexive(k);
        lemma_lower_bound_at(s, k, a.len() as int);
        assert(obj_push(s, k, vs[0]) =~= a.push((k, pre.push(vs[0]))));
        lemma_push_values_last(a, k, pre.push(vs[0]), vs.drop_first());
        assert(pre.push(vs[0]) + vs.drop_first() =~= pre + vs);
    }
}

/// Adding sorted entries above all keys of `a` appends them.
pub proof fn lemma_push_entries(a: ObjV, o: ObjV)
    requires
        keys_sorted(a + o),
        forall|i: int| 0 <= i < o.len() ==> (#[trigger] o[i]).1.len() > 0,
    ensures
        push_entries(a, o) == a + o,
    decreases o.len(),
{
    if o.len() == 0 {
        assert(a + o =~= a);
    } else {
        let k = o[0].0;
        let vs = o[0].1;
        assert forall|i: int| 0 <= i < a.len() implies key_lt(#[trigger] a[i].0, k) by {
            assert((a + o)[i] == a[i]);
            assert((a + o)[a.len() as int] == o[0]);
        }
        // the first value starts a new entry at the end
        lemma_key_lt_irreflexive(k);
        lemma_lower_bound_at(a, k, a.len() as int);
        assert(obj_push(a, k, vs[0]) =~= a.push((k, seq![vs[0]])));
        lemma_push_values_last(a, k, seq![vs[0]], vs.drop_first());
        assert(seq![vs[0]] + vs.drop_first() =~= vs);
        assert(push_values(a, k, vs) == a.push((k, vs)));
        assert(a.push((k, vs)) + o.drop_first() =~= a + o);
        assert forall|i: int| 0 <= i < o.drop_first().len() implies (
        #[trigger] o.drop_first()[i]).1.len() > 0 by {
            assert(o.drop_first()[i] == o[i + 1]);
        }
        lemma_push_entries(a.push((k, vs)), o.drop_first());
    }
}


/// An object model whose keys are sorted and each hold at least one value,
/// all of them well formed.
pub open spec fn entries_wf(o: ObjV) -> bool {
    &&& keys_sorted(o)
    &&& forall|i: int|
        0 <= i < o.len() ==> (#[trigger] o[i]).1.len() > 0 && forall|j: int|
            0 <= j < o[i].1.len() ==> value_wf(#[trigger] o[i].1[j])
}

pub proof fn lemma_obj_push_wf(o: ObjV, k: Seq<char>, v: ValueV)
    requires
        entries_wf(o),
        value_wf(v),
    ensures
        entries_wf(obj_push(o, k, v)),
{
    lemma_obj_push_sorted(o, k, v);
    lemma_lower_bound(o, k);
    let n = obj_push(o, k, v);
    let p = lower_bound(o, k) as int;
    assert forall|i: int| 0 <= i < n.len() implies (#[trigger] n[i]).1.len() > 0 && forall|j: int|
        0 <= j < n[i].1.len() ==> value_wf(#[trigger] n[i].1[j]) by {
        if p < o.len() && o[p].0 == k {
            if i == p {
                assert forall|j: int| 0 <= j < n[i].1.len() implies value_wf(
                    #[trigger] n[i].1[j],
                ) by {
                    if j < o[p].1.len() {
                        assert(n[i].1[j] == o[p].1[j]);
                    }
                }
            } else {
                assert(n[i] == o[i]);
            }
        } else {
            if i < p {
                assert(n[i] == o[i]);
            } else if i > p {
                assert(n[i] == o[i - 1]);
            }
        }
    }
}

pub proof fn lemma_value_wf(r: Seq<char>, escapes: bool)
    ensures
        value(r, escapes) matches Some((v, _)) ==> value_wf(v),
    decreases r.len(), 3nat,
{
    if r.len() > 0 && r[0] == '{' {
        lemma_object_wf(r, escapes);
    }
}

pub proof fn lemma_object_wf(r: Seq<char>, escapes: bool)
    ensures
        object(r, escapes) matches Some((v, _)) ==> value_wf(v),
    decreases r.len(), 2nat,
{
    if r.len() > 0 && r[0] == '{' {
        match eat_filler(r.drop_first()) {
            None => {},
            Some(r1) => if r1.len() < r.len() {
                lemma_object_rest_wf(r1, escapes, seq![]);
            },
        }
    }
}

pub proof fn lemma_object_rest_wf(r: Seq<char>, escapes: bool, acc: ObjV)
    requires
        entries_wf(acc),
    ensures
        object_rest(r, escapes, acc) matches Some((v, _)) ==> value_wf(v),
    decreases r.len(), 1nat,
{
    if r.len() > 0 && r[0] != '}' {
        lemma_pair_wf(r, escapes);
        match pair(r, escapes) {
            None => {},
            Some((k, v, r2)) => match eat_filler(r2) {
                None => {},
                Some(r3) => if r3.len() < r.len() {
                    lemma_obj_push_wf(acc, k, v);
                    lemma_object_rest_wf(r3, escapes, obj_push(acc, k, v));
                },
            },
        }
    }
}

pub proof fn lemma_pair_wf(r: Seq<char>, escapes: bool)
    ensures
        pair(r, escapes) matches Some((_, v, _)) ==> value_wf(v),
    decreases r.len(), 0nat,
{
    match crate::text::grammar::string(r, escapes) {
        None => {},
        Some((k, r1)) => match eat_filler(r1) {
            None => {},
            Some(r2) => if r2.len() < r.len() {
                lemma_value_wf(r2, escapes);
            },
        },
    }
}

/// Every value that parsing yields is well formed: its objects are sorted by
/// key, with no key twice and none without a value.
pub proof fn law_parsed_values_are_wf(s: Seq<char>, escapes: bool)
    ensures
        vdf_text(s, escapes) matches Some(p) ==> value_wf(p.value),
{
    match base_macros(s, seq![]) {
        None => {},
        Some((bases, r1)) => {
            lemma_pair_wf(r1, escapes);
        },
    }
}

/// A key and a well formed value, rendered as VDF text, read back as the same
/// key and value, with no `#base` macros.
pub proof fn law_render_then_parse(k: Seq<char>, v: ValueV)
    requires
        value_wf(v),
    ensures
        vdf_text(pair_text(k, v, 0), true) == Some(
            PartialVdfV { key: k, value: v, bases: seq![] },
        ),
{
    let s = pair_text(k, v, 0);
    lemma_pair_text_parts(k, v, 0);
    let core = quoted_text(k) + gap_text(v, 0) + body_text(v, 0) + seq!['\n'] + seq![];
    assert(tabs(0) =~= Seq::<char>::empty());
    assert(s =~= core);
    lemma_pair_roundtrip(k, v, 0, seq![], seq![]);
    lemma_eat_filler_at_token(s);
    assert(!starts_with(s, seq!['#', 'b', 'a', 's', 'e'])) by {
        assert(s.take(5)[0] == s[0]);
    }
    assert(base_macro(s) == Some(None::<(Seq<char>, Seq<char>)>));
    assert(base_macros(s, seq![]) == Some((Seq::<Seq<char>>::empty(), s)));
    // the pair, as inside an object
    assert(core =~= quoted_text(k) + (gap_text(v, 0) + body_text(v, 0) + seq!['\n']));
    lemma_quoted_text(k, gap_text(v, 0) + body_text(v, 0) + seq!['\n']);
    assert(gap_text(v, 0) + body_text(v, 0) + seq!['\n'] =~= gap_text(v, 0) + (body_text(v, 0)
        + seq!['\n']));
    lemma_eat_filler_skip(gap_text(v, 0), body_text(v, 0) + seq!['\n']);
    lemma_eat_filler_at_token(body_text(v, 0) + seq!['\n']);
    lemma_value_roundtrip(v, 0, seq!['\n']);
    assert(pair(s, true) == Some((k, v, seq!['\n'])));
    // the end of the text
    lemma_eat_filler_skip(seq!['\n'], seq![]);
    assert(seq!['\n'] + Seq::<char>::empty() =~= seq!['\n']);
    lemma_eat_filler_at_token(seq![]);
}

/// Parsing the rendering of what a parse yielded gives it back (without its
/// `#base` macros).
pub proof fn law_parse_render_parse(s: Seq<char>, escapes: bool)
    requires
        vdf_text(s, escapes) is Some,
    ensures
        ({
            let p = vdf_text(s, escapes)->0;
            vdf_text(pair_text(p.key, p.value, 0), true) == Some(
                PartialVdfV { key: p.key, value: p.value, bases: seq![] },
            )
        }),
{
    law_parsed_values_are_wf(s, escapes);
    let p = vdf_text(s, escapes)->0;
    law_render_then_parse(p.key, p.value);
}

} // verus!
