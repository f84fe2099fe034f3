//! Rendering values as VDF text: every string quoted with escape sequences,
//! objects indented by tabs.
use vstd::prelude::*;

use crate::strings::{chars_of, cow_str, push_char, push_str};
use crate::value::{
    lemma_entries_view, lemma_values_view, values_view, Obj, ObjV, Value, ValueV, Vdf,
};

verus! {

/// The text that stands for `c` inside a quoted string.
pub open spec fn escape_char(c: char) -> Seq<char> {
    if c == '\n' {
        seq!['\\', 'n']
    } else if c == '\r' {
        seq!['\\', 'r']
    } else if c == '\t' {
        seq!['\\', 't']
    } else if c == '"' {
        seq!['\\', '"']
    } else if c == '\\' {
        seq!['\\', '\\']
    } else {
        seq![c]
    }
}

/// `s` with each character escaped.
pub open spec fn escape(s: Seq<char>) -> Seq<char>
    decreases s.len(),
{
    if s.len() == 0 {
        seq![]
    } else {
        escape(s.drop_last()) + escape_char(s.last())
    }
}

/// `s` as a quoted string.
pub open spec fn quoted_text(s: Seq<char>) -> Seq<char> {
    seq!['"'] + escape(s) + seq!['"']
}

/// `n` tabs.
pub open spec fn tabs(n: nat) -> Seq<char> {
    Seq::new(n, |i: int| '\t')
}

/// The text of a value indented by `n` tabs.
pub open spec fn value_text(v: ValueV, n: nat) -> Seq<char>
    decreases v, 1nat,
{
    match v {
        ValueV::Str(s) => quoted_text(s),
        ValueV::Obj(o) => tabs(n) + seq!['{', '\n'] + entries_text(o, n + 1) + tabs(n) + seq!['}'],
    }
}

/// The text of a key and value on a line indented by `n` tabs.
pub open spec fn pair_text(k: Seq<char>, v: ValueV, n: nat) -> Seq<char>
    decreases v, 2nat,
{
    tabs(n) + quoted_text(k) + (if v is Str {
        seq!['\t']
    } else {
        seq!['\n']
    }) + value_text(v, n) + seq!['\n']
}

/// The text of the pairs of an object, each value under its key.
pub open spec fn entries_text(o: ObjV, n: nat) -> Seq<char>
    decreases o, 0nat,
{
    if o.len() == 0 {
        seq![]
    } else {
        entries_text(o.drop_last(), n) + values_text(o.last().0, o.last().1, n)
    }
}

/// The text of the pairs of one key and its values.
pub open spec fn values_text(k: Seq<char>, vs: Seq<ValueV>, n: nat) -> Seq<char>
    decreases vs, 0nat,
{
    if vs.len() == 0 {
        seq![]
    } else {
        values_text(k, vs.drop_last(), n) + pair_text(k, vs.last(), n)
    }
}

fn write_escaped_str(f: &mut String, s: &str)
    ensures
        final(f)@ == old(f)@ + quoted_text(s@),
{
    push_char(f, '"');
    let cs = chars_of(s);
    let mut i: usize = 0;
    while i < cs.len()
        invariant
            i <= cs.len(),
            cs@ == s@,
            f@ == old(f)@ + seq!['"'] + escape(cs@.take(i as int)),
        decreases cs.len() - i,
    {
        let c = cs[i];
        let ghost before = f@;
        if c == '\n' {
            push_str(f, "\\n");
        } else if c == '\r' {
            push_str(f, "\\r");
        } else if c == '\t' {
            push_str(f, "\\t");
        } else if c == '"' {
            push_str(f, "\\\"");
        } else if c == '\\' {
            push_str(f, "\\\\");
        } else {
            push_char(f, c);
        }
        proof {
            reveal_strlit("\\n");
            reveal_strlit("\\r");
            reveal_strlit("\\t");
            reveal_strlit("\\\"");
            reveal_strlit("\\\\");
            assert(cs@.take(i + 1).drop_last() =~= cs@.take(i as int));
        }
        i += 1;
        assert(f@ =~= old(f)@ + seq!['"'] + escape(cs@.take(i as int)));
    }
    assert(cs@.take(cs@.len() as int) =~= cs@);
    push_char(f, '"');
    assert(f@ =~= old(f)@ + quoted_text(s@));
}

fn write_pair(f: &mut String, indent: &String, key: &str, value: &Value)
    requires
        indent@ == tabs(indent@.len()),
    ensures
        final(f)@ == old(f)@ + pair_text(key@, value@, indent@.len()),
    decreases value, 2nat,
{
    push_str(f, indent.as_str());
    write_escaped_str(f, key);
    if value.is_str() {
        push_char(f, '\t');
    } else {
        push_char(f, '\n');
    }
    value.write_indented(f, indent);
    push_char(f, '\n');
    assert(f@ =~= old(f)@ + pair_text(key@, value@, indent@.len()));
}

fn write_obj(f: &mut String, indent: &String, obj: &Obj)
    requires
        indent@ == tabs(indent@.len()),
    ensures
        final(f)@ == old(f)@ + entries_text(obj@, indent@.len()),
    decreases obj, 0nat,
{
    let ghost o = obj@;
    let ghost n = indent@.len();
    proof {
        lemma_entries_view(obj.0@);
    }
    let mut i: usize = 0;
    while i < obj.0.len()
        invariant
            i <= obj.0@.len(),
            n == indent@.len(),
            indent@ == tabs(n),
            o == obj@,
            o.len() == obj.0@.len(),
            forall|k: int|
                0 <= k < obj.0@.len() ==> #[trigger] o[k] == (obj.0@[k].0@, values_view(
                    obj.0@[k].1@,
                )),
            f@ == old(f)@ + entries_text(o.take(i as int), n),
        decreases obj.0.len() - i,
    {
        let key = &obj.0[i].0;
        let values = &obj.0[i].1;
        let ghost vs = o[i as int].1;
        assert(*values == obj.0@[i as int].1);
        proof {
            lemma_values_view(values@);
        }
        let ghost start = f@;
        let mut j: usize = 0;
        while j < values.len()
            invariant
                j <= values@.len(),
                n == indent@.len(),
                indent@ == tabs(n),
                i < obj.0@.len(),
                *values == obj.0@[i as int].1,
                vs == values_view(values@),
                vs.len() == values@.len(),
                forall|k: int| 0 <= k < values@.len() ==> #[trigger] vs[k] == values@[k]@,
                f@ == start + values_text(key@, vs.take(j as int), n),
            decreases values.len() - j,
        {
            proof {
                let e = obj.0@[i as int];
                assert(decreases_to!(*obj => obj.0));
                assert(decreases_to!(obj.0 => obj.0@));
                assert(decreases_to!(obj.0@ => e));
                assert(decreases_to!(e => e.1));
                assert(decreases_to!(e.1 => e.1@));
                assert(decreases_to!(e.1@ => e.1@[j as int]));
            }
            write_pair(f, indent, cow_str(key), &values[j]);
            proof {
                let t = vs.take(j + 1);
                assert(t.drop_last() =~= vs.take(j as int));
                assert(t.last() == vs[j as int]);
                assert(values_text(key@, t, n) == values_text(key@, t.drop_last(), n) + pair_text(
                    key@,
                    t.last(),
                    n,
                ));
                assert(f@ =~= start + values_text(key@, t, n));
            }
            j += 1;
        }
        proof {
            assert(vs.take(vs.len() as int) =~= vs);
            assert(o.take(i + 1).drop_last() =~= o.take(i as int));
        }
        i += 1;
    }
    assert(o.take(o.len() as int) =~= o);
}

impl<'a> Value<'a> {
    fn write_indented(&self, f: &mut String, indent: &String)
        requires
            indent@ == tabs(indent@.len()),
        ensures
            final(f)@ == old(f)@ + value_text(self@, indent@.len()),
        decreases self, 1nat,
    {
        match self {
            Value::Str(s) => write_escaped_str(f, cow_str(s)),
            Value::Obj(obj) => {
                push_str(f, indent.as_str());
                push_str(f, "{\n");
                let mut deeper = indent.clone();
                push_char(&mut deeper, '\t');
                assert(deeper@ =~= tabs(deeper@.len()));
                write_obj(f, &deeper, obj);
                push_str(f, indent.as_str());
                push_char(f, '}');
                proof {
                    reveal_strlit("{\n");
                }
                assert(f@ =~= old(f)@ + value_text(self@, indent@.len()));
            },
        }
    }

    /// The value rendered as VDF text.
    pub fn to_string(&self) -> (r: String)
        ensures
            r@ == value_text(self@, 0),
    {
        let mut f = String::new();
        let indent = String::new();
        assert(indent@ =~= tabs(0));
        self.write_indented(&mut f, &indent);
        assert(f@ =~= value_text(self@, 0));
        f
    }
}

impl<'a> Vdf<'a> {
    fn write_indented(&self, f: &mut String, indent: &String)
        requires
            indent@ == tabs(indent@.len()),
        ensures
            final(f)@ == old(f)@ + pair_text(self.key@, self.value@, indent@.len()),
    {
        write_pair(f, indent, cow_str(&self.key), &self.value)
    }

    /// The pair rendered as VDF text.
    pub fn to_string(&self) -> (r: String)
        ensures
            r@ == pair_text(self.key@, self.value@, 0),
    {
        let mut f = String::new();
        let indent = String::new();
        assert(indent@ =~= tabs(0));
        self.write_indented(&mut f, &indent);
        assert(f@ =~= pair_text(self.key@, self.value@, 0));
        f
    }
}

} // verus!
