//! Taking an object apart into its key–value pairs.
use vstd::prelude::*;

use crate::strings::clone_cow;

use crate::order::key_lt;
use crate::value::{keys_sorted, entries_view, lemma_entries_view, lemma_values_view, values_view, Key, Obj, ObjV, Value, ValueV, Vdf, VdfV};

verus! {

/// The pairs of one key with each of its values, in order.
pub open spec fn entry_pairs(k: Seq<char>, vs: Seq<ValueV>) -> Seq<VdfV> {
    vs.map_values(|v: ValueV| VdfV { key: k, value: v })
}

/// The pairs of an object: for each key in order, the key with each of its
/// values in order. A key without values gives none.
pub open spec fn obj_pairs(o: ObjV) -> Seq<VdfV>
    decreases o.len(),
{
    if o.len() == 0 {
        seq![]
    } else {
        obj_pairs(o.drop_last()) + entry_pairs(o.last().0, o.last().1)
    }
}

/// Whether the keys of `ps` never go down: each pair's key is the key
/// before it or comes after it.
pub open spec fn pairs_ascending(ps: Seq<VdfV>) -> bool {
    forall|i: int, j: int|
        0 <= i < j < ps.len() ==> #[trigger] ps[i].key == #[trigger] ps[j].key || key_lt(
            ps[i].key,
            ps[j].key,
        )
}

/// Every pair of `o` has a key below `x` when every key of `o` is.
proof fn lemma_pairs_below(o: ObjV, x: Seq<char>)
    requires
        forall|k: int| 0 <= k < o.len() ==> key_lt(#[trigger] o[k].0, x),
    ensures
        forall|i: int| 0 <= i < obj_pairs(o).len() ==> key_lt(#[trigger] obj_pairs(o)[i].key, x),
    decreases o.len(),
{
    if o.len() > 0 {
        let o1 = o.drop_last();
        assert forall|k: int| 0 <= k < o1.len() implies key_lt(#[trigger] o1[k].0, x) by {
            assert(o1[k] == o[k]);
        }
        lemma_pairs_below(o1, x);
        let e = entry_pairs(o.last().0, o.last().1);
        assert(key_lt(o[o.len() - 1].0, x));
        assert forall|i: int| 0 <= i < obj_pairs(o).len() implies key_lt(
            #[trigger] obj_pairs(o)[i].key,
            x,
        ) by {
            if i >= obj_pairs(o1).len() {
                assert(obj_pairs(o)[i] == e[i - obj_pairs(o1).len()]);
            } else {
                assert(obj_pairs(o)[i] == obj_pairs(o1)[i]);
            }
        }
    }
}

/// The pairs of an object sorted by key come out in key order: a key's
/// pairs all come before those of any later key.
pub proof fn law_pairs_come_in_key_order(o: ObjV)
    requires
        keys_sorted(o),
    ensures
        pairs_ascending(obj_pairs(o)),
    decreases o.len(),
{
    if o.len() > 0 {
        let o1 = o.drop_last();
        let last = o.last();
        let e = entry_pairs(last.0, last.1);
        let p1 = obj_pairs(o1);
        let p = obj_pairs(o);
        assert(keys_sorted(o1)) by {
            assert forall|i: int, j: int| 0 <= i < j < o1.len() implies key_lt(
                #[trigger] o1[i].0,
                #[trigger] o1[j].0,
            ) by {
                assert(o1[i] == o[i]);
                assert(o1[j] == o[j]);
            }
        }
        law_pairs_come_in_key_order(o1);
        assert forall|k: int| 0 <= k < o1.len() implies key_lt(#[trigger] o1[k].0, last.0) by {
            assert(o1[k] == o[k]);
            assert(key_lt(o[k].0, o[o.len() - 1].0));
        }
        lemma_pairs_below(o1, last.0);
        assert forall|i: int, j: int| 0 <= i < j < p.len() implies #[trigger] p[i].key
            == #[trigger] p[j].key || key_lt(p[i].key, p[j].key) by {
            if j < p1.len() {
                assert(p[i] == p1[i]);
                assert(p[j] == p1[j]);
            } else if i < p1.len() {
                assert(p[i] == p1[i]);
                assert(p[j] == e[j - p1.len()]);
            } else {
                assert(p[i] == e[i - p1.len()]);
                assert(p[j] == e[j - p1.len()]);
            }
        }
    }
}

/// The views of a list of pairs.
pub open spec fn vdfs_view(vs: Seq<Vdf>) -> Seq<VdfV> {
    vs.map_values(|v: Vdf| v@)
}

/// The pairs of an object, handed out one at a time.
pub struct IntoVdfs<'a> {
    /// The pairs still to come, last first.
    rev: Vec<Vdf<'a>>,
}

impl<'a> View for IntoVdfs<'a> {
    type V = Seq<VdfV>;

    closed spec fn view(&self) -> Seq<VdfV> {
        vdfs_view(self.rev@).reverse()
    }
}

impl<'a> Obj<'a> {
    /// The pairs of the object: each key with each of its values, in key
    /// order and then in the order of the values.
    pub fn into_vdfs(self) -> (r: IntoVdfs<'a>)
        requires
            self.wf(),
        ensures
            r@ == obj_pairs(self@),
            pairs_ascending(r@),
    {
        let mut entries: Vec<(Key<'a>, Vec<Value<'a>>)> = self.0;
        let ghost all = entries_view(entries@);
        let mut rev: Vec<Vdf<'a>> = Vec::new();
        proof {
            lemma_entries_view(entries@);
        }
        while entries.len() > 0
            invariant
                obj_pairs(all) == obj_pairs(entries_view(entries@)) + vdfs_view(rev@).reverse(),
            decreases entries.len(),
        {
            let ghost before = entries@;
            let (key, mut values) = entries.pop().unwrap();
            proof {
                lemma_entries_view(before);
                lemma_entries_view(entries@);
                assert(entries_view(entries@) =~= entries_view(before).drop_last());
                assert(entries_view(before).last() == (key@, values_view(values@)));
                assert(obj_pairs(entries_view(before)) == obj_pairs(entries_view(entries@))
                    + entry_pairs(key@, values_view(values@)));
            }
            loop
                invariant
                    obj_pairs(all) == obj_pairs(entries_view(entries@)) + entry_pairs(
                        key@,
                        values_view(values@),
                    ) + vdfs_view(rev@).reverse(),
                ensures
                    obj_pairs(all) == obj_pairs(entries_view(entries@)) + vdfs_view(rev@).reverse(),
                decreases values.len(),
            {
                if values.len() == 0 {
                    assert(entry_pairs(key@, values_view(values@)) =~= seq![]);
                    assert(obj_pairs(entries_view(entries@)) + seq![] =~= obj_pairs(entries_view(entries@)));
                    break;
                }
                let ghost vs_before = values@;
                let ghost rv = vdfs_view(rev@);
                let value = values.pop().unwrap();
                let vdf = Vdf::new(clone_cow(&key), value);
                proof {
                    lemma_values_view(vs_before);
                    lemma_values_view(values@);
                    assert(values@ =~= vs_before.drop_last());
                    assert(values_view(values@) =~= values_view(vs_before).drop_last());
                    assert(entry_pairs(key@, values_view(vs_before)) =~= entry_pairs(
                        key@,
                        values_view(values@),
                    ).push(vdf@));
                    assert(vdfs_view(rev@.push(vdf)) =~= rv.push(vdf@));
                    assert(rv.push(vdf@).reverse() =~= seq![vdf@] + rv.reverse());
                    assert(obj_pairs(entries_view(entries@)) + entry_pairs(key@, values_view(vs_before)) + rv.reverse()
                        =~= obj_pairs(entries_view(entries@)) + entry_pairs(key@, values_view(values@)) + rv.push(vdf@).reverse());
                }
                rev.push(vdf);
            }
        }
        proof {
            law_pairs_come_in_key_order(all);
        }
        assert(entries_view(entries@) =~= seq![]);
        assert(obj_pairs(seq![]) + vdfs_view(rev@).reverse() =~= vdfs_view(rev@).reverse());
        IntoVdfs { rev }
    }
}

impl<'a> IntoVdfs<'a> {
    /// The next pair, if any remains.
    pub fn next(&mut self) -> (r: Option<Vdf<'a>>)
        ensures
            old(self)@.len() == 0 ==> r is None && final(self)@ == old(self)@,
            old(self)@.len() > 0 ==> (r matches Some(v) && v@ == old(self)@[0] && final(self)@
                == old(self)@.drop_first()),
    {
        let ghost before = vdfs_view(self.rev@);
        let r = self.rev.pop();
        proof {
            if before.len() > 0 {
                assert(vdfs_view(self.rev@) =~= before.drop_last());
                assert(before.drop_last().reverse() =~= before.reverse().drop_first());
            }
        }
        r
    }

    /// All remaining pairs, in order.
    pub fn collect(self) -> (r: Vec<Vdf<'a>>)
        ensures
            vdfs_view(r@) == self@,
    {
        let mut it = self;
        let ghost all = it@;
        let mut out: Vec<Vdf<'a>> = Vec::new();
        while it.rev.len() > 0
            invariant
                all == vdfs_view(out@) + it@,
            decreases it.rev.len(),
        {
            let ghost before = it@;
            let v = it.next().unwrap();
            proof {
                assert(vdfs_view(out@.push(v)) =~= vdfs_view(out@).push(v@));
                assert(vdfs_view(out@) + before =~= vdfs_view(out@).push(v@) + it@);
            }
            out.push(v);
        }
        assert(it@ =~= seq![]);
        assert(vdfs_view(out@) + seq![] =~= vdfs_view(out@));
        out
    }
}

} // verus!
