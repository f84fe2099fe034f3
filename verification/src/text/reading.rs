//! What reading text yields: where an unquoted string stops, what a comment
//! may hold, and the text of a plain key and value on one line.
use vstd::prelude::*;

use crate::text::grammar::{
    base_macro, base_macros, base_word, comment_rest, eat_comment, eat_filler, eat_space, pair, starts_with,
    string, unquoted, unquoted_len, value, vdf_text,
};
use crate::value::{PartialVdfV, ValueV};

verus! {

/// The characters at which an unquoted string stops: whitespace (space,
/// tab, carriage return, line feed), a quote and the braces.
pub open spec fn unquoted_stops_at(c: char) -> bool {
    seq![' ', '\t', '\r', '\n', '"', '{', '}'].contains(c)
}

/// A character that a comment may hold: a tab or a character that is not a
/// control character.
pub open spec fn comment_may_hold(c: char) -> bool {
    c == '\t' || ((c as u32) >= 0x20 && (c as u32) != 0x7F)
}

proof fn lemma_stop_set(c: char)
    ensures
        unquoted_stops_at(c) <==> (c == ' ' || c == '\t' || c == '\r' || c == '\n' || c == '"'
            || c == '{' || c == '}'),
{
    let s = seq![' ', '\t', '\r', '\n', '"', '{', '}'];
    if c == ' ' || c == '\t' || c == '\r' || c == '\n' || c == '"' || c == '{' || c == '}' {
        if c == ' ' { assert(s[0] == c); }
        if c == '\t' { assert(s[1] == c); }
        if c == '\r' { assert(s[2] == c); }
        if c == '\n' { assert(s[3] == c); }
        if c == '"' { assert(s[4] == c); }
        if c == '{' { assert(s[5] == c); }
        if c == '}' { assert(s[6] == c); }
    }
}

/// An unquoted string `a` followed by `t` is read up to the end of `a`, when
/// no character of `a` stops it and `t` is empty or starts with one that does.
proof fn lemma_unquoted_len_of(a: Seq<char>, t: Seq<char>)
    requires
        forall|i: int| 0 <= i < a.len() ==> !unquoted_stops_at(#[trigger] a[i]),
        t.len() == 0 || unquoted_stops_at(t[0]),
    ensures
        unquoted_len(a + t) == a.len(),
    decreases a.len(),
{
    let r = a + t;
    if a.len() == 0 {
        assert(r =~= t);
        if t.len() > 0 {
            lemma_stop_set(t[0]);
        }
    } else {
        lemma_stop_set(a[0]);
        assert(r[0] == a[0]);
        assert(r.drop_first() =~= a.drop_first() + t);
        assert forall|i: int| 0 <= i < a.drop_first().len() implies !unquoted_stops_at(
            #[trigger] a.drop_first()[i],
        ) by {
            assert(a.drop_first()[i] == a[i + 1]);
        }
        lemma_unquoted_len_of(a.drop_first(), t);
    }
}

proof fn lemma_unquoted_len_bound(r: Seq<char>)
    ensures
        unquoted_len(r) <= r.len(),
    decreases r.len(),
{
    if r.len() > 0 {
        lemma_unquoted_len_bound(r.drop_first());
    }
}

/// An unquoted string runs up to the first space, tab, carriage return, line
/// feed, quote or brace, and takes at least one character: what it reads and
/// what remains make up the text, no character read stops it, and what remains
/// is empty or starts with a character that stops it. Where nothing can be
/// read, the text is empty or starts with such a character.
pub proof fn law_unquoted_stops_at_whitespace_quote_brace(r: Seq<char>)
    ensures
        match unquoted(r) {
            Some((s, t)) => {
                &&& s + t == r
                &&& s.len() > 0
                &&& forall|i: int| 0 <= i < s.len() ==> !unquoted_stops_at(#[trigger] s[i])
                &&& (t.len() == 0 || unquoted_stops_at(t[0]))
            },
            None => r.len() == 0 || unquoted_stops_at(r[0]),
        },
    decreases r.len(),
{
    if r.len() > 0 {
        lemma_stop_set(r[0]);
        law_unquoted_stops_at_whitespace_quote_brace(r.drop_first());
        lemma_unquoted_len_bound(r.drop_first());
        let n = unquoted_len(r);
        let m = unquoted_len(r.drop_first());
        if !unquoted_stops_at(r[0]) {
            assert(n == 1 + m);
            if m == 0 {
                assert(r.take(1) + r.skip(1) =~= r);
                assert(r.skip(1) =~= r.drop_first());
            } else {
                let (s1, t1) = unquoted(r.drop_first()).unwrap();
                assert(s1 =~= r.drop_first().take(m as int));
                assert(r.take(n as int) =~= seq![r[0]] + s1);
                assert(r.skip(n as int) =~= t1);
                assert(r.take(n as int) + r.skip(n as int) =~= r);
                assert forall|i: int| 0 <= i < n implies !unquoted_stops_at(
                    #[trigger] r.take(n as int)[i],
                ) by {
                    if i > 0 {
                        assert(r.take(n as int)[i] == s1[i - 1]);
                    }
                }
            }
        }
    }
}

/// A comment runs to the end of its line whatever printable characters and
/// tabs it holds: after the `//`, a text of such characters followed by a line
/// feed and anything `t` leaves the line feed and `t`.
pub proof fn law_comment_holds_tabs_and_printables(r: Seq<char>, t: Seq<char>)
    requires
        forall|i: int| 0 <= i < r.len() ==> comment_may_hold(#[trigger] r[i]),
    ensures
        comment_rest(r + seq!['\n'] + t) == Some(seq!['\n'] + t),
    decreases r.len(),
{
    let s = r + seq!['\n'] + t;
    if r.len() == 0 {
        assert(s =~= seq!['\n'] + t);
    } else {
        assert(s[0] == r[0]);
        assert(comment_may_hold(r[0]));
        assert(s.drop_first() =~= r.drop_first() + seq!['\n'] + t);
        assert forall|i: int| 0 <= i < r.drop_first().len() implies comment_may_hold(
            #[trigger] r.drop_first()[i],
        ) by {
            assert(r.drop_first()[i] == r[i + 1]);
        }
        law_comment_holds_tabs_and_printables(r.drop_first(), t);
    }
}

/// A comment may not hold a control character other than a tab, nor a
/// carriage return that no line feed follows: at such a character the comment
/// is refused, whatever follows it.
pub proof fn law_comment_refuses_control_characters(c: char, t: Seq<char>)
    requires
        !comment_may_hold(c),
        c != '\n',
        c == '\r' ==> (t.len() == 0 || t[0] != '\n'),
    ensures
        comment_rest(seq![c] + t) == Option::<Seq<char>>::None,
{
    let s = seq![c] + t;
    assert(s[0] == c);
    if c == '\r' && s.len() > 1 {
        assert(s[1] == t[0]);
    }
}

/// A word that unquoted reading takes whole and that starts no comment.
pub open spec fn plain_word(a: Seq<char>) -> bool {
    &&& a.len() > 0
    &&& forall|i: int| 0 <= i < a.len() ==> !unquoted_stops_at(#[trigger] a[i])
    &&& a[0] != '/'
}

proof fn lemma_plain_word_filler(a: Seq<char>, t: Seq<char>)
    requires
        plain_word(a),
    ensures
        eat_filler(a + t) == Some(a + t),
{
    let s = a + t;
    assert(s[0] == a[0]);
    assert(!unquoted_stops_at(a[0]));
    lemma_stop_set(a[0]);
    assert(eat_space(s) == s);
    assert(!starts_with(s, seq!['/', '/']));
    assert(eat_comment(s) == Some(s));
}

/// A key and a value that are plain words, separated by a tab, read as that
/// key and that value, with nothing left.
proof fn lemma_tab_pair(a: Seq<char>, b: Seq<char>, escapes: bool)
    requires
        plain_word(a),
        plain_word(b),
    ensures
        pair(a + seq!['\t'] + b, escapes) == Some((a, ValueV::Str(b), Seq::<char>::empty())),
        eat_filler(a + seq!['\t'] + b) == Some(a + seq!['\t'] + b),
{
    let tb = seq!['\t'] + b;
    let s = a + tb;
    assert(a + seq!['\t'] + b =~= s);
    lemma_plain_word_filler(a, tb);
    lemma_stop_set('\t');
    assert(tb[0] == '\t');
    lemma_unquoted_len_of(a, tb);
    assert(s.take(a.len() as int) =~= a);
    assert(s.skip(a.len() as int) =~= tb);
    assert(s[0] == a[0]);
    lemma_stop_set(a[0]);
    assert(string(s, escapes) == Some((a, tb)));
    // the tab between them
    assert(tb.drop_first() =~= b);
    lemma_plain_word_filler(b, Seq::<char>::empty());
    assert(b + Seq::<char>::empty() =~= b);
    assert(eat_space(tb) == eat_space(b));
    assert(eat_space(b) == b);
    assert(eat_filler(tb) == eat_filler(b));
    // the value
    lemma_unquoted_len_of(b, Seq::<char>::empty());
    assert(b.take(b.len() as int) =~= b);
    assert(b.skip(b.len() as int) =~= Seq::<char>::empty());
    lemma_stop_set(b[0]);
    assert(value(b, escapes) == Some((ValueV::Str(b), Seq::<char>::empty())));
}

/// Text that holds a key and a value that are plain words, separated by a
/// tab, reads as that key with that string as its value, with or without
/// escape sequences.
pub proof fn law_tab_separates_key_and_value(a: Seq<char>, b: Seq<char>, escapes: bool)
    requires
        plain_word(a),
        plain_word(b),
        a[0] != '#',
    ensures
        vdf_text(a + seq!['\t'] + b, escapes) == Some(
            PartialVdfV { key: a, value: ValueV::Str(b), bases: Seq::empty() },
        ),
{
    let s = a + seq!['\t'] + b;
    lemma_tab_pair(a, b, escapes);
    assert(s[0] == a[0]);
    assert(!starts_with(s, base_word()));
    assert(base_macro(s) == Some(Option::<(Seq<char>, Seq<char>)>::None));
    assert(base_macros(s, seq![]) == Some((Seq::<Seq<char>>::empty(), s)));
    assert(eat_filler(Seq::<char>::empty()) == Some(Seq::<char>::empty()));
}

/// A line comment before the pair, holding printable characters and tabs, is
/// skipped: the text reads as the pair alone.
pub proof fn law_comment_before_pair(c: Seq<char>, a: Seq<char>, b: Seq<char>, escapes: bool)
    requires
        forall|i: int| 0 <= i < c.len() ==> comment_may_hold(#[trigger] c[i]),
        plain_word(a),
        plain_word(b),
        a[0] != '#',
    ensures
        vdf_text(seq!['/', '/'] + c + seq!['\n'] + a + seq!['\t'] + b, escapes) == Some(
            PartialVdfV { key: a, value: ValueV::Str(b), bases: Seq::empty() },
        ),
{
    let p = a + seq!['\t'] + b;
    let s = seq!['/', '/'] + c + seq!['\n'] + a + seq!['\t'] + b;
    let nl = seq!['\n'] + p;
    assert(s =~= seq!['/', '/'] + (c + seq!['\n'] + p));
    assert(s[0] == '/');
    assert(eat_space(s) == s);
    assert(s.take(2) =~= seq!['/', '/']);
    assert(s.skip(2) =~= c + seq!['\n'] + p);
    law_comment_holds_tabs_and_printables(c, p);
    assert(eat_comment(s) == Some(nl));
    // the line feed
    assert(nl[0] == '\n');
    assert(nl.drop_first() =~= p);
    lemma_tab_pair(a, b, escapes);
    assert(p[0] == a[0]);
    lemma_stop_set(a[0]);
    assert(eat_space(p) == p);
    assert(eat_space(nl) == p);
    assert(eat_filler(nl) == eat_filler(p));
    assert(eat_filler(s) == Some(p));
    // what follows is the pair alone
    assert(!starts_with(p, base_word()));
    assert(base_macro(p) == Some(Option::<(Seq<char>, Seq<char>)>::None));
    assert(base_macros(s, seq![]) == Some((Seq::<Seq<char>>::empty(), p)));
    assert(eat_filler(Seq::<char>::empty()) == Some(Seq::<char>::empty()));
    assert(vdf_text(p, escapes) == vdf_text(s, escapes));
    law_tab_separates_key_and_value(a, b, escapes);
}

} // verus!
