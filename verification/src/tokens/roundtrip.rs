//! What flattening a pair into tokens and reading the tokens back gives.
use vstd::prelude::*;

use crate::ser::{element_tokens, key_value_tokens, naive_pair, naive_stream_tokens, obj_rest_tokens, pair_element, pair_key_values, pair_object, pair_sequence, pair_values, seq_rest_tokens, value_tokens_of, NaiveError};
use crate::tokens::naive::{key_values, naive_of, naive_vdf, non_seq_value, object, sequence, values, NaiveTokenV};
use crate::tokens::{entries_tokens, entry_tokens, value_tokens, values_tokens, vdf_tokens, TokenV};
use crate::text::grammar::vdf_text;
use crate::text::roundtrip::{law_parsed_values_are_wf, value_wf};
use crate::value::{keys_sorted, lemma_lower_bound_at, obj_insert, ObjV, ValueV, VdfV};

verus! {

/// Tokens with their key markers dropped.
pub open spec fn naive_tokens(ts: Seq<TokenV>) -> Seq<NaiveTokenV> {
    ts.map_values(|t: TokenV| naive_of(t))
}

/// A value whose objects, at every depth, are sorted by key with no key
/// twice.
pub open spec fn value_sorted(v: ValueV) -> bool
    decreases v,
{
    match v {
        ValueV::Str(_) => true,
        ValueV::Obj(o) => keys_sorted(o) && forall|i: int, j: int|
            0 <= i < o.len() && 0 <= j < o[i].1.len() ==> value_sorted(#[trigger] o[i].1[j]),
    }
}

/// The values of an object model are sorted at every depth.
pub open spec fn entries_sorted(o: ObjV) -> bool {
    forall|i: int, j: int| 0 <= i < o.len() && 0 <= j < o[i].1.len() ==> value_sorted(#[trigger] o[i].1[j])
}

/// All values of a list are sorted at every depth.
pub open spec fn all_sorted(vs: Seq<ValueV>) -> bool {
    forall|j: int| 0 <= j < vs.len() ==> value_sorted(#[trigger] vs[j])
}

pub proof fn lemma_naive_tokens_concat(a: Seq<TokenV>, b: Seq<TokenV>)
    ensures
        naive_tokens(a + b) == naive_tokens(a) + naive_tokens(b),
{
    assert(naive_tokens(a + b) =~= naive_tokens(a) + naive_tokens(b));
}

pub proof fn lemma_entries_tokens_concat(a: ObjV, b: ObjV)
    ensures
        entries_tokens(a + b) == entries_tokens(a) + entries_tokens(b),
    decreases b.len(),
{
    if b.len() == 0 {
        assert(a + b =~= a);
        assert(entries_tokens(a) + entries_tokens(b) =~= entries_tokens(a));
    } else {
        lemma_entries_tokens_concat(a, b.drop_last());
        assert((a + b).drop_last() =~= a + b.drop_last());
        assert((a + b).last() == b.last());
        assert(entries_tokens(a + b) =~= entries_tokens(a) + entries_tokens(b));
    }
}

pub proof fn lemma_values_tokens_concat(a: Seq<ValueV>, b: Seq<ValueV>)
    ensures
        values_tokens(a + b) == values_tokens(a) + values_tokens(b),
    decreases b.len(),
{
    if b.len() == 0 {
        assert(a + b =~= a);
        assert(values_tokens(a) + values_tokens(b) =~= values_tokens(a));
    } else {
        lemma_values_tokens_concat(a, b.drop_last());
        assert((a + b).drop_last() =~= a + b.drop_last());
        assert((a + b).last() == b.last());
        assert(values_tokens(a + b) =~= values_tokens(a) + values_tokens(b));
    }
}

/// The tokens of entries, split after the first.
pub proof fn lemma_entries_tokens_first(o: ObjV)
    requires
        o.len() > 0,
    ensures
        entries_tokens(o) == entry_tokens(o[0].0, o[0].1) + entries_tokens(o.drop_first()),
{
    lemma_entries_tokens_concat(seq![o[0]], o.drop_first());
    assert(seq![o[0]] + o.drop_first() =~= o);
    assert(seq![o[0]].drop_last() =~= Seq::<(Seq<char>, Seq<ValueV>)>::empty());
    assert(entries_tokens(Seq::<(Seq<char>, Seq<ValueV>)>::empty()) == Seq::<TokenV>::empty());
    assert(seq![o[0]].last() == o[0]);
    assert(entries_tokens(seq![o[0]]) == entries_tokens(seq![o[0]].drop_last()) + entry_tokens(
        o[0].0,
        o[0].1,
    ));
    assert(entries_tokens(seq![o[0]]) =~= entry_tokens(o[0].0, o[0].1));
}

/// The tokens of values, split after the first.
pub proof fn lemma_values_tokens_first(vs: Seq<ValueV>)
    requires
        vs.len() > 0,
    ensures
        values_tokens(vs) == value_tokens(vs[0]) + values_tokens(vs.drop_first()),
{
    lemma_values_tokens_concat(seq![vs[0]], vs.drop_first());
    assert(seq![vs[0]] + vs.drop_first() =~= vs);
    assert(seq![vs[0]].drop_last() =~= Seq::<ValueV>::empty());
    assert(values_tokens(Seq::<ValueV>::empty()) == Seq::<TokenV>::empty());
    assert(seq![vs[0]].last() == vs[0]);
    assert(values_tokens(seq![vs[0]]) == values_tokens(seq![vs[0]].drop_last()) + value_tokens(
        vs[0],
    ));
    assert(values_tokens(seq![vs[0]]) =~= value_tokens(vs[0]));
}

/// The tokens of a value start with a string or an object's opening marker.
pub proof fn lemma_value_tokens_start(v: ValueV)
    ensures
        value_tokens(v).len() > 0,
        value_tokens(v)[0] is Str || value_tokens(v)[0] is ObjBegin,
{
}

/// Inserting a key above all keys of a sorted object appends it.
pub proof fn lemma_insert_last(acc: ObjV, k: Seq<char>, vs: Seq<ValueV>)
    requires
        keys_sorted(acc.push((k, vs))),
    ensures
        obj_insert(acc, k, vs) == acc.push((k, vs)),
{
    let s = acc.push((k, vs));
    assert forall|j: int| 0 <= j < acc.len() implies crate::order::key_lt(#[trigger] acc[j].0, k) by {
        assert(s[j] == acc[j]);
        assert(s[acc.len() as int] == (k, vs));
        assert(crate::order::key_lt(s[j].0, s[acc.len() as int].0));
    }
    lemma_lower_bound_at(acc, k, acc.len() as int);
    assert(obj_insert(acc, k, vs) =~= acc.push((k, vs)));
}

// ---------------------------------------------------------------------------
// Read back as a pair
// ---------------------------------------------------------------------------

/// The tokens of a sorted value read back as that value, as the values of a
/// key or as an element of a sequence.
pub proof fn lemma_value_back(v: ValueV, r: Seq<NaiveTokenV>)
    requires
        value_sorted(v),
    ensures
        values(naive_tokens(value_tokens(v)) + r) == Ok::<
            (Seq<ValueV>, Seq<NaiveTokenV>),
            crate::error::TokenContext,
        >((seq![v], r)),
        non_seq_value(naive_tokens(value_tokens(v)) + r) == Ok::<
            (Option<ValueV>, Seq<NaiveTokenV>),
            crate::error::TokenContext,
        >((Some(v), r)),
    decreases v, 3nat,
{
    match v {
        ValueV::Str(s) => {
            let t = naive_tokens(value_tokens(v)) + r;
            assert(t[0] == NaiveTokenV::Str(s));
            assert(t.drop_first() =~= r);
        },
        ValueV::Obj(o) => {
            let t = naive_tokens(value_tokens(v)) + r;
            let inner = naive_tokens(entries_tokens(o)) + (seq![NaiveTokenV::ObjEnd] + r);
            assert(naive_tokens(value_tokens(v)) =~= seq![NaiveTokenV::ObjBegin] + naive_tokens(
                entries_tokens(o),
            ) + seq![NaiveTokenV::ObjEnd]);
            assert(t[0] == NaiveTokenV::ObjBegin);
            assert(t.drop_first() =~= inner);
            assert(Seq::<(Seq<char>, Seq<ValueV>)>::empty() + o =~= o);
            lemma_entries_back(o, r, seq![]);
        },
    }
}

/// The tokens of sorted entries above all keys of `acc`, followed by the
/// object's closing marker, read back as those entries after `acc`.
pub proof fn lemma_entries_back(o: ObjV, r: Seq<NaiveTokenV>, acc: ObjV)
    requires
        keys_sorted(acc + o),
        entries_sorted(o),
    ensures
        object(naive_tokens(entries_tokens(o)) + (seq![NaiveTokenV::ObjEnd] + r), acc) == Ok::<
            (ValueV, Seq<NaiveTokenV>),
            crate::error::TokenContext,
        >((ValueV::Obj(acc + o), r)),
    decreases o, 2nat,
{
    let t = naive_tokens(entries_tokens(o)) + (seq![NaiveTokenV::ObjEnd] + r);
    if o.len() == 0 {
        assert(t =~= seq![NaiveTokenV::ObjEnd] + r);
        assert(t.drop_first() =~= r);
        assert(acc + o =~= acc);
    } else {
        let k = o[0].0;
        let vs = o[0].1;
        let o1 = o.drop_first();
        let rest = naive_tokens(entries_tokens(o1)) + (seq![NaiveTokenV::ObjEnd] + r);
        lemma_entries_tokens_first(o);
        lemma_naive_tokens_concat(entry_tokens(k, vs), entries_tokens(o1));
        assert(t =~= naive_tokens(entry_tokens(k, vs)) + rest);
        assert forall|j: int| 0 <= j < vs.len() implies value_sorted(#[trigger] vs[j]) by {
            assert(vs[j] == o[0].1[j]);
        }
        lemma_entry_back(k, vs, rest);
        assert(t[0] == NaiveTokenV::Str(k));
        // the entry goes after the keys of `acc`
        assert(keys_sorted(acc.push((k, vs)))) by {
            let s = acc.push((k, vs));
            assert forall|i: int, j: int| 0 <= i < j < s.len() implies crate::order::key_lt(
                #[trigger] s[i].0,
                #[trigger] s[j].0,
            ) by {
                assert(s[i] == (acc + o)[i]);
                assert(s[j] == (acc + o)[j]);
            }
        }
        lemma_insert_last(acc, k, vs);
        assert(acc.push((k, vs)) + o1 =~= acc + o);
        assert forall|i: int, j: int| 0 <= i < o1.len() && 0 <= j < o1[i].1.len() implies value_sorted(
            #[trigger] o1[i].1[j],
        ) by {
            assert(o1[i] == o[i + 1]);
        }
        lemma_entries_back(o1, r, acc.push((k, vs)));
    }
}

/// The tokens of a key and its sorted values read back as them.
pub proof fn lemma_entry_back(k: Seq<char>, vs: Seq<ValueV>, r: Seq<NaiveTokenV>)
    requires
        all_sorted(vs),
    ensures
        key_values(naive_tokens(entry_tokens(k, vs)) + r) == Ok::<
            (Seq<char>, Seq<ValueV>, Seq<NaiveTokenV>),
            crate::error::TokenContext,
        >((k, vs, r)),
        naive_tokens(entry_tokens(k, vs)).len() > 0,
    decreases vs, 1nat,
{
    let t = naive_tokens(entry_tokens(k, vs)) + r;
    if vs.len() == 1 {
        assert(values_tokens(vs) =~= value_tokens(vs[0])) by {
            assert(vs.drop_last() =~= Seq::<ValueV>::empty());
        }
        assert(naive_tokens(entry_tokens(k, vs)) =~= seq![NaiveTokenV::Str(k)] + naive_tokens(
            value_tokens(vs[0]),
        ));
        assert(t.drop_first() =~= naive_tokens(value_tokens(vs[0])) + r);
        lemma_value_back(vs[0], r);
        assert(seq![vs[0]] =~= vs);
    } else {
        assert(naive_tokens(entry_tokens(k, vs)) =~= seq![
            NaiveTokenV::Str(k),
            NaiveTokenV::SeqBegin,
        ] + naive_tokens(values_tokens(vs)) + seq![NaiveTokenV::SeqEnd]);
        assert(t.drop_first().drop_first() =~= naive_tokens(values_tokens(vs)) + (seq![
            NaiveTokenV::SeqEnd,
        ] + r));
        lemma_sequence_back(vs, r, seq![]);
        assert(Seq::<ValueV>::empty() + vs =~= vs);
    }
}

/// The tokens of sorted values, followed by the sequence's closing marker,
/// read back as those values after `acc`.
pub proof fn lemma_sequence_back(vs: Seq<ValueV>, r: Seq<NaiveTokenV>, acc: Seq<ValueV>)
    requires
        all_sorted(vs),
    ensures
        sequence(naive_tokens(values_tokens(vs)) + (seq![NaiveTokenV::SeqEnd] + r), acc) == Ok::<
            (Seq<ValueV>, Seq<NaiveTokenV>),
            crate::error::TokenContext,
        >((acc + vs, r)),
    decreases vs, 0nat,
{
    let t = naive_tokens(values_tokens(vs)) + (seq![NaiveTokenV::SeqEnd] + r);
    if vs.len() == 0 {
        assert(t =~= seq![NaiveTokenV::SeqEnd] + r);
        assert(t.drop_first() =~= r);
        assert(acc + vs =~= acc);
    } else {
        let v = vs[0];
        let vs1 = vs.drop_first();
        let rest = naive_tokens(values_tokens(vs1)) + (seq![NaiveTokenV::SeqEnd] + r);
        lemma_values_tokens_first(vs);
        lemma_naive_tokens_concat(value_tokens(v), values_tokens(vs1));
        assert(t =~= naive_tokens(value_tokens(v)) + rest);
        lemma_value_tokens_start(v);
        assert(t[0] == naive_of(value_tokens(v)[0]));
        lemma_value_back(v, rest);
        assert forall|j: int| 0 <= j < vs1.len() implies value_sorted(#[trigger] vs1[j]) by {
            assert(vs1[j] == vs[j + 1]);
        }
        lemma_sequence_back(vs1, r, acc.push(v));
        assert(acc.push(v) + vs1 =~= acc + vs);
    }
}

/// A key and a value sorted at every depth, flattened into tokens whose key
/// markers are then dropped, read back as the same key and value.
pub proof fn law_naive_tokens_give_back_vdf(k: Seq<char>, v: ValueV)
    requires
        value_sorted(v),
    ensures
        naive_vdf(naive_tokens(vdf_tokens(k, v))) == Ok::<VdfV, crate::error::Error>(
            VdfV { key: k, value: v },
        ),
{
    let t = naive_tokens(vdf_tokens(k, v));
    lemma_naive_tokens_concat(seq![TokenV::Key(k)], value_tokens(v));
    assert(t =~= seq![NaiveTokenV::Str(k)] + (naive_tokens(value_tokens(v)) + seq![]));
    assert(t.drop_first() =~= naive_tokens(value_tokens(v)) + seq![]);
    lemma_value_back(v, seq![]);
}

// ---------------------------------------------------------------------------
// Read back as a pair, as a serializer's tokens are
// ---------------------------------------------------------------------------

/// The tokens of a sorted value read back as that value, as the values of a
/// key or as an element of a sequence.
pub proof fn lemma_value_back_as_pair(v: ValueV, r: Seq<NaiveTokenV>)
    requires
        value_sorted(v),
    ensures
        pair_values(naive_tokens(value_tokens(v)) + r) == Ok::<
            (Seq<ValueV>, Seq<NaiveTokenV>),
            NaiveError,
        >((seq![v], r)),
        pair_element(naive_tokens(value_tokens(v)) + r) == Ok::<
            (Option<ValueV>, Seq<NaiveTokenV>),
            NaiveError,
        >((Some(v), r)),
    decreases v, 3nat,
{
    match v {
        ValueV::Str(s) => {
            let t = naive_tokens(value_tokens(v)) + r;
            assert(t[0] == NaiveTokenV::Str(s));
            assert(t.drop_first() =~= r);
        },
        ValueV::Obj(o) => {
            let t = naive_tokens(value_tokens(v)) + r;
            let inner = naive_tokens(entries_tokens(o)) + (seq![NaiveTokenV::ObjEnd] + r);
            assert(naive_tokens(value_tokens(v)) =~= seq![NaiveTokenV::ObjBegin] + naive_tokens(
                entries_tokens(o),
            ) + seq![NaiveTokenV::ObjEnd]);
            assert(t[0] == NaiveTokenV::ObjBegin);
            assert(t.drop_first() =~= inner);
            assert(Seq::<(Seq<char>, Seq<ValueV>)>::empty() + o =~= o);
            lemma_entries_back_as_pair(o, r, seq![]);
        },
    }
}

/// The tokens of sorted entries above all keys of `acc`, followed by the
/// object's closing marker, read back as those entries after `acc`.
pub proof fn lemma_entries_back_as_pair(o: ObjV, r: Seq<NaiveTokenV>, acc: ObjV)
    requires
        keys_sorted(acc + o),
        entries_sorted(o),
    ensures
        pair_object(naive_tokens(entries_tokens(o)) + (seq![NaiveTokenV::ObjEnd] + r), acc) == Ok::<
            (ValueV, Seq<NaiveTokenV>),
            NaiveError,
        >((ValueV::Obj(acc + o), r)),
    decreases o, 2nat,
{
    let t = naive_tokens(entries_tokens(o)) + (seq![NaiveTokenV::ObjEnd] + r);
    if o.len() == 0 {
        assert(t =~= seq![NaiveTokenV::ObjEnd] + r);
        assert(t.drop_first() =~= r);
        assert(acc + o =~= acc);
    } else {
        let k = o[0].0;
        let vs = o[0].1;
        let o1 = o.drop_first();
        let rest = naive_tokens(entries_tokens(o1)) + (seq![NaiveTokenV::ObjEnd] + r);
        lemma_entries_tokens_first(o);
        lemma_naive_tokens_concat(entry_tokens(k, vs), entries_tokens(o1));
        assert(t =~= naive_tokens(entry_tokens(k, vs)) + rest);
        assert forall|j: int| 0 <= j < vs.len() implies value_sorted(#[trigger] vs[j]) by {
            assert(vs[j] == o[0].1[j]);
        }
        lemma_entry_back_as_pair(k, vs, rest);
        assert(t[0] == NaiveTokenV::Str(k));
        // the entry goes after the keys of `acc`
        assert(keys_sorted(acc.push((k, vs)))) by {
            let s = acc.push((k, vs));
            assert forall|i: int, j: int| 0 <= i < j < s.len() implies crate::order::key_lt(
                #[trigger] s[i].0,
                #[trigger] s[j].0,
            ) by {
                assert(s[i] == (acc + o)[i]);
                assert(s[j] == (acc + o)[j]);
            }
        }
        lemma_insert_last(acc, k, vs);
        assert(acc.push((k, vs)) + o1 =~= acc + o);
        assert forall|i: int, j: int| 0 <= i < o1.len() && 0 <= j < o1[i].1.len() implies value_sorted(
            #[trigger] o1[i].1[j],
        ) by {
            assert(o1[i] == o[i + 1]);
        }
        lemma_entries_back_as_pair(o1, r, acc.push((k, vs)));
    }
}

/// The tokens of a key and its sorted values read back as them.
pub proof fn lemma_entry_back_as_pair(k: Seq<char>, vs: Seq<ValueV>, r: Seq<NaiveTokenV>)
    requires
        all_sorted(vs),
    ensures
        pair_key_values(naive_tokens(entry_tokens(k, vs)) + r) == Ok::<
            (Seq<char>, Seq<ValueV>, Seq<NaiveTokenV>),
            NaiveError,
        >((k, vs, r)),
        naive_tokens(entry_tokens(k, vs)).len() > 0,
    decreases vs, 1nat,
{
    let t = naive_tokens(entry_tokens(k, vs)) + r;
    if vs.len() == 1 {
        assert(values_tokens(vs) =~= value_tokens(vs[0])) by {
            assert(vs.drop_last() =~= Seq::<ValueV>::empty());
        }
        assert(naive_tokens(entry_tokens(k, vs)) =~= seq![NaiveTokenV::Str(k)] + naive_tokens(
            value_tokens(vs[0]),
        ));
        assert(t.drop_first() =~= naive_tokens(value_tokens(vs[0])) + r);
        lemma_value_back_as_pair(vs[0], r);
        assert(seq![vs[0]] =~= vs);
    } else {
        assert(naive_tokens(entry_tokens(k, vs)) =~= seq![
            NaiveTokenV::Str(k),
            NaiveTokenV::SeqBegin,
        ] + naive_tokens(values_tokens(vs)) + seq![NaiveTokenV::SeqEnd]);
        assert(t.drop_first().drop_first() =~= naive_tokens(values_tokens(vs)) + (seq![
            NaiveTokenV::SeqEnd,
        ] + r));
        lemma_sequence_back_as_pair(vs, r, seq![]);
        assert(Seq::<ValueV>::empty() + vs =~= vs);
    }
}

/// The tokens of sorted values, followed by the sequence's closing marker,
/// read back as those values after `acc`.
pub proof fn lemma_sequence_back_as_pair(vs: Seq<ValueV>, r: Seq<NaiveTokenV>, acc: Seq<ValueV>)
    requires
        all_sorted(vs),
    ensures
        pair_sequence(naive_tokens(values_tokens(vs)) + (seq![NaiveTokenV::SeqEnd] + r), acc) == Ok::<
            (Seq<ValueV>, Seq<NaiveTokenV>),
            NaiveError,
        >((acc + vs, r)),
    decreases vs, 0nat,
{
    let t = naive_tokens(values_tokens(vs)) + (seq![NaiveTokenV::SeqEnd] + r);
    if vs.len() == 0 {
        assert(t =~= seq![NaiveTokenV::SeqEnd] + r);
        assert(t.drop_first() =~= r);
        assert(acc + vs =~= acc);
    } else {
        let v = vs[0];
        let vs1 = vs.drop_first();
        let rest = naive_tokens(values_tokens(vs1)) + (seq![NaiveTokenV::SeqEnd] + r);
        lemma_values_tokens_first(vs);
        lemma_naive_tokens_concat(value_tokens(v), values_tokens(vs1));
        assert(t =~= naive_tokens(value_tokens(v)) + rest);
        lemma_value_tokens_start(v);
        assert(t[0] == naive_of(value_tokens(v)[0]));
        lemma_value_back_as_pair(v, rest);
        assert forall|j: int| 0 <= j < vs1.len() implies value_sorted(#[trigger] vs1[j]) by {
            assert(vs1[j] == vs[j + 1]);
        }
        lemma_sequence_back_as_pair(vs1, r, acc.push(v));
        assert(acc.push(v) + vs1 =~= acc + vs);
    }
}

/// A key and a value sorted at every depth, flattened into tokens whose key
/// markers are then dropped, read back as a serializer's tokens are: the same
/// key and value.
pub proof fn law_serialized_tokens_give_back_vdf(k: Seq<char>, v: ValueV)
    requires
        value_sorted(v),
    ensures
        naive_pair(naive_tokens(vdf_tokens(k, v))) == Ok::<VdfV, NaiveError>(
            VdfV { key: k, value: v },
        ),
{
    let t = naive_tokens(vdf_tokens(k, v));
    lemma_naive_tokens_concat(seq![TokenV::Key(k)], value_tokens(v));
    assert(t =~= seq![NaiveTokenV::Str(k)] + (naive_tokens(value_tokens(v)) + seq![]));
    assert(t.drop_first() =~= naive_tokens(value_tokens(v)) + seq![]);
    lemma_value_back_as_pair(v, seq![]);
}


// ---------------------------------------------------------------------------
// Read back as a token stream
// ---------------------------------------------------------------------------

/// The tokens of a value, their key markers dropped, read back as the same
/// tokens, as the value of a key or as an element of a sequence.
pub proof fn lemma_value_tokens_back(v: ValueV, r: Seq<NaiveTokenV>, acc: Seq<TokenV>)
    ensures
        value_tokens_of(naive_tokens(value_tokens(v)) + r, acc) == Some((acc + value_tokens(v), r)),
        element_tokens(naive_tokens(value_tokens(v)) + r, acc) == Some((acc + value_tokens(v), r)),
    decreases v, 3nat,
{
    match v {
        ValueV::Str(s) => {
            let t = naive_tokens(value_tokens(v)) + r;
            assert(t[0] == NaiveTokenV::Str(s));
            assert(t.drop_first() =~= r);
            assert(acc.push(TokenV::Str(s)) =~= acc + value_tokens(v));
        },
        ValueV::Obj(o) => {
            let t = naive_tokens(value_tokens(v)) + r;
            let inner = naive_tokens(entries_tokens(o)) + (seq![NaiveTokenV::ObjEnd] + r);
            assert(naive_tokens(value_tokens(v)) =~= seq![NaiveTokenV::ObjBegin] + naive_tokens(
                entries_tokens(o),
            ) + seq![NaiveTokenV::ObjEnd]);
            assert(t[0] == NaiveTokenV::ObjBegin);
            assert(t.drop_first() =~= inner);
            lemma_entries_tokens_back(o, r, acc.push(TokenV::ObjBegin));
            assert(acc.push(TokenV::ObjBegin) + entries_tokens(o) + seq![TokenV::ObjEnd] =~= acc
                + value_tokens(v));
        },
    }
}

/// The tokens of entries, their key markers dropped, followed by the
/// object's closing marker, read back as the same tokens.
pub proof fn lemma_entries_tokens_back(o: ObjV, r: Seq<NaiveTokenV>, acc: Seq<TokenV>)
    ensures
        obj_rest_tokens(naive_tokens(entries_tokens(o)) + (seq![NaiveTokenV::ObjEnd] + r), acc)
            == Some((acc + entries_tokens(o) + seq![TokenV::ObjEnd], r)),
    decreases o, 2nat,
{
    let t = naive_tokens(entries_tokens(o)) + (seq![NaiveTokenV::ObjEnd] + r);
    if o.len() == 0 {
        assert(t =~= seq![NaiveTokenV::ObjEnd] + r);
        assert(t.drop_first() =~= r);
        assert(acc.push(TokenV::ObjEnd) =~= acc + entries_tokens(o) + seq![TokenV::ObjEnd]);
    } else {
        let k = o[0].0;
        let vs = o[0].1;
        let o1 = o.drop_first();
        let rest = naive_tokens(entries_tokens(o1)) + (seq![NaiveTokenV::ObjEnd] + r);
        lemma_entries_tokens_first(o);
        lemma_naive_tokens_concat(entry_tokens(k, vs), entries_tokens(o1));
        assert(t =~= naive_tokens(entry_tokens(k, vs)) + rest);
        lemma_entry_tokens_back(k, vs, rest, acc);
        assert(t[0] == NaiveTokenV::Str(k));
        lemma_entries_tokens_back(o1, r, acc + entry_tokens(k, vs));
        assert(acc + entry_tokens(k, vs) + entries_tokens(o1) + seq![TokenV::ObjEnd] =~= acc
            + entries_tokens(o) + seq![TokenV::ObjEnd]);
    }
}

/// The tokens of a key and its values, their key markers dropped, read back
/// as the same tokens.
pub proof fn lemma_entry_tokens_back(k: Seq<char>, vs: Seq<ValueV>, r: Seq<NaiveTokenV>, acc: Seq<TokenV>)
    ensures
        key_value_tokens(naive_tokens(entry_tokens(k, vs)) + r, acc) == Some(
            (acc + entry_tokens(k, vs), r),
        ),
        naive_tokens(entry_tokens(k, vs)).len() > 0,
    decreases vs, 1nat,
{
    let t = naive_tokens(entry_tokens(k, vs)) + r;
    if vs.len() == 1 {
        assert(values_tokens(vs) =~= value_tokens(vs[0])) by {
            assert(vs.drop_last() =~= Seq::<ValueV>::empty());
        }
        assert(naive_tokens(entry_tokens(k, vs)) =~= seq![NaiveTokenV::Str(k)] + naive_tokens(
            value_tokens(vs[0]),
        ));
        assert(t.drop_first() =~= naive_tokens(value_tokens(vs[0])) + r);
        lemma_value_tokens_back(vs[0], r, acc.push(TokenV::Key(k)));
        assert(acc.push(TokenV::Key(k)) + value_tokens(vs[0]) =~= acc + entry_tokens(k, vs));
    } else {
        let acc2 = acc.push(TokenV::Key(k)).push(TokenV::SeqBegin);
        assert(naive_tokens(entry_tokens(k, vs)) =~= seq![
            NaiveTokenV::Str(k),
            NaiveTokenV::SeqBegin,
        ] + naive_tokens(values_tokens(vs)) + seq![NaiveTokenV::SeqEnd]);
        assert(t.drop_first()[0] == NaiveTokenV::SeqBegin);
        assert(t.drop_first().drop_first() =~= naive_tokens(values_tokens(vs)) + (seq![
            NaiveTokenV::SeqEnd,
        ] + r));
        lemma_seq_tokens_back(vs, r, acc2);
        assert(acc2 + values_tokens(vs) + seq![TokenV::SeqEnd] =~= acc + entry_tokens(k, vs));
    }
}

/// The tokens of values, their key markers dropped, followed by the
/// sequence's closing marker, read back as the same tokens.
pub proof fn lemma_seq_tokens_back(vs: Seq<ValueV>, r: Seq<NaiveTokenV>, acc: Seq<TokenV>)
    ensures
        seq_rest_tokens(naive_tokens(values_tokens(vs)) + (seq![NaiveTokenV::SeqEnd] + r), acc)
            == Some((acc + values_tokens(vs) + seq![TokenV::SeqEnd], r)),
    decreases vs, 0nat,
{
    let t = naive_tokens(values_tokens(vs)) + (seq![NaiveTokenV::SeqEnd] + r);
    if vs.len() == 0 {
        assert(t =~= seq![NaiveTokenV::SeqEnd] + r);
        assert(t.drop_first() =~= r);
        assert(acc.push(TokenV::SeqEnd) =~= acc + values_tokens(vs) + seq![TokenV::SeqEnd]);
    } else {
        let v = vs[0];
        let vs1 = vs.drop_first();
        let rest = naive_tokens(values_tokens(vs1)) + (seq![NaiveTokenV::SeqEnd] + r);
        lemma_values_tokens_first(vs);
        lemma_naive_tokens_concat(value_tokens(v), values_tokens(vs1));
        assert(t =~= naive_tokens(value_tokens(v)) + rest);
        lemma_value_tokens_start(v);
        assert(t[0] == naive_of(value_tokens(v)[0]));
        lemma_value_tokens_back(v, rest, acc);
        lemma_seq_tokens_back(vs1, r, acc + value_tokens(v));
        assert(acc + value_tokens(v) + values_tokens(vs1) + seq![TokenV::SeqEnd] =~= acc
            + values_tokens(vs) + seq![TokenV::SeqEnd]);
    }
}

/// The tokens of any key and value, their key markers dropped, read back as
/// the same tokens: dropping the markers loses nothing.
pub proof fn law_naive_tokens_give_back_token_stream(k: Seq<char>, v: ValueV)
    ensures
        naive_stream_tokens(naive_tokens(vdf_tokens(k, v))) == Some(vdf_tokens(k, v)),
{
    let t = naive_tokens(vdf_tokens(k, v));
    lemma_naive_tokens_concat(seq![TokenV::Key(k)], value_tokens(v));
    assert(t =~= seq![NaiveTokenV::Str(k)] + (naive_tokens(value_tokens(v)) + seq![]));
    assert(t.drop_first() =~= naive_tokens(value_tokens(v)) + seq![]);
    lemma_value_tokens_back(v, seq![], seq![TokenV::Key(k)]);
    assert(seq![TokenV::Key(k)] + value_tokens(v) =~= vdf_tokens(k, v));
}

// ---------------------------------------------------------------------------
// Parsed text through token streams
// ---------------------------------------------------------------------------

/// A well formed value is sorted at every depth.
pub proof fn lemma_wf_value_sorted(v: ValueV)
    requires
        value_wf(v),
    ensures
        value_sorted(v),
    decreases v,
{
    if let ValueV::Obj(o) = v {
        assert forall|i: int, j: int| 0 <= i < o.len() && 0 <= j < o[i].1.len() implies value_sorted(
            #[trigger] o[i].1[j],
        ) by {
            assert(decreases_to!(v => o));
            assert(decreases_to!(o => o[i]));
            assert(decreases_to!(o[i] => o[i].1));
            assert(decreases_to!(o[i].1 => o[i].1[j]));
            lemma_wf_value_sorted(o[i].1[j]);
        }
    }
}

/// Whatever parsing yields, flattened into tokens whose key markers are then
/// dropped, reads back as the same key and value.
pub proof fn law_parsed_vdf_survives_naive_tokens(s: Seq<char>, escapes: bool)
    requires
        vdf_text(s, escapes) is Some,
    ensures
        ({
            let p = vdf_text(s, escapes)->0;
            naive_vdf(naive_tokens(vdf_tokens(p.key, p.value))) == Ok::<VdfV, crate::error::Error>(
                VdfV { key: p.key, value: p.value },
            )
        }),
{
    law_parsed_values_are_wf(s, escapes);
    let p = vdf_text(s, escapes)->0;
    lemma_wf_value_sorted(p.value);
    law_naive_tokens_give_back_vdf(p.key, p.value);
}

} // verus!
