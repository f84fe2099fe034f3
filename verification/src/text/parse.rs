//! A parser of VDF text that follows [`crate::text::grammar`].
use std::borrow::Cow;

use vstd::prelude::*;

use crate::error::{parse_error, Error};
use crate::strings::{chars_of, push_char, string_from};
use crate::text::grammar::{
    base_macro, base_macros, comment_rest, eat_blanks, eat_comment, eat_filler, eat_line_ends,
    eat_line_filler, eat_space, ends_unquoted, is_blank, is_control, lemma_eat_space_after_blanks,
    lemma_eat_space_after_line_ends, lemma_eat_space_stops, lemma_unquoted_len_step, object, object_rest, pair, quoted,
    quoted_rest, starts_with, string, unescape, unquoted, unquoted_len, value, vdf_text,
};
use crate::text::roundtrip::{law_parsed_values_are_wf, value_wf};
use crate::value::{entries_borrowed, value_borrowed, strings_view, Key, Obj, PartialVdf, Value, ValueV, Vdf, VdfV};

verus! {

/// The first character of `r`, if any.
pub open spec fn first(r: Seq<char>) -> Option<char> {
    if r.len() > 0 {
        Some(r[0])
    } else {
        None
    }
}

/// A position in the characters of a text.
struct CharIter<'a, 'text> {
    /// The text, from which read strings are borrowed.
    src: &'a str,
    /// The characters of `src`.
    text: &'text Vec<char>,
    idx: usize,
}

impl<'a, 'text> CharIter<'a, 'text> {
    spec fn wf(&self) -> bool {
        &&& self.idx <= self.text@.len()
        &&& self.text@ == self.src@
    }

    /// The characters that remain to be read.
    spec fn rest(&self) -> Seq<char> {
        self.text@.skip(self.idx as int)
    }

    /// `next` reads the same text as `self`, from no earlier a position.
    spec fn follows(&self, next: &Self) -> bool {
        &&& next.text == self.text
        &&& next.src == self.src
        &&& self.idx <= next.idx
        &&& next.wf()
    }

    fn new(src: &'a str, text: &'text Vec<char>) -> (r: Self)
        requires
            text@ == src@,
        ensures
            r.wf(),
            r.text == text,
            r.src == src,
            r.idx == 0,
            r.rest() == text@,
    {
        let r = CharIter { src, text, idx: 0 };
        assert(r.rest() =~= text@);
        r
    }

    fn original_str(&self) -> (r: &'text Vec<char>)
        ensures
            r == self.text,
    {
        self.text
    }

    /// The text of characters `start..end`, borrowed from the text.
    fn slice(&self, start: usize, end: usize) -> (r: &'a str)
        requires
            self.wf(),
            start <= end <= self.text@.len(),
        ensures
            r@ == self.text@.subrange(start as int, end as int),
    {
        self.src.substring_char(start, end)
    }

    fn index(&self) -> (r: usize)
        ensures
            r == self.idx,
    {
        self.idx
    }

    fn peek(&self) -> (r: Option<char>)
        requires
            self.wf(),
        ensures
            r == first(self.rest()),
    {
        if self.idx < self.text.len() {
            Some(self.text[self.idx])
        } else {
            None
        }
    }

    /// The next two characters, if there are so many.
    fn peek_n(&self) -> (r: (Option<char>, Option<char>))
        requires
            self.wf(),
        ensures
            r.0 == first(self.rest()),
            r.1 == (if self.rest().len() > 1 {
                Some(self.rest()[1])
            } else {
                None
            }),
    {
        let a = self.peek();
        let b = if self.text.len() - self.idx > 1 {
            Some(self.text[self.idx + 1])
        } else {
            None
        };
        (a, b)
    }

    fn next(&mut self) -> (r: Option<char>)
        requires
            old(self).wf(),
        ensures
            old(self).follows(final(self)),
            r == first(old(self).rest()),
            final(self).rest() == if old(self).rest().len() > 0 {
                old(self).rest().drop_first()
            } else {
                old(self).rest()
            },
            final(self).idx == old(self).idx + if r is Some {
                1int
            } else {
                0int
            },
    {
        if self.idx < self.text.len() {
            let c = self.text[self.idx];
            self.idx += 1;
            assert(self.rest() =~= old(self).rest().drop_first());
            Some(c)
        } else {
            None
        }
    }

    fn unwrap_next(&mut self) -> (r: char)
        requires
            old(self).wf(),
            old(self).rest().len() > 0,
        ensures
            old(self).follows(final(self)),
            r == old(self).rest()[0],
            final(self).rest() == old(self).rest().drop_first(),
            final(self).idx == old(self).idx + 1,
    {
        self.next().unwrap()
    }

    /// Skips `n` characters, which must be there.
    fn unwrap_next_n(&mut self, n: usize)
        requires
            old(self).wf(),
            old(self).rest().len() >= n,
        ensures
            old(self).follows(final(self)),
            final(self).rest() == old(self).rest().skip(n as int),
            final(self).idx == old(self).idx + n,
    {
        let len = self.text.len();
        assert(self.rest().len() == self.text@.len() - self.idx);
        self.idx += n;
        assert(self.rest() =~= old(self).rest().skip(n as int));
    }

    /// Reads the next character and tells whether it is `c`.
    fn ensure_next(&mut self, c: char) -> (r: bool)
        requires
            old(self).wf(),
        ensures
            old(self).follows(final(self)),
            r == (first(old(self).rest()) == Some(c)),
            old(self).rest().len() > 0 ==> final(self).rest() == old(self).rest().drop_first()
                && final(self).idx == old(self).idx + 1,
    {
        self.next() == Some(c)
    }

    /// Reads the next character if it is `c`.
    fn next_if_eq(&mut self, c: char) -> (r: bool)
        requires
            old(self).wf(),
        ensures
            old(self).follows(final(self)),
            r == (first(old(self).rest()) == Some(c)),
            final(self).rest() == if r {
                old(self).rest().drop_first()
            } else {
                old(self).rest()
            },
    {
        if self.peek() == Some(c) {
            self.unwrap_next();
            true
        } else {
            false
        }
    }

    /// Reads the characters of `cs` if the text goes on with them.
    fn next_n_if_eq(&mut self, cs: &[char]) -> (r: bool)
        requires
            old(self).wf(),
        ensures
            old(self).follows(final(self)),
            r == starts_with(old(self).rest(), cs@),
            final(self).rest() == if r {
                old(self).rest().skip(cs@.len() as int)
            } else {
                old(self).rest()
            },
    {
        let ghost r = self.rest();
        let len = self.text.len();
        if len - self.idx < cs.len() {
            return false;
        }
        let mut i: usize = 0;
        while i < cs.len()
            invariant
                self.wf(),
                r == self.rest(),
                r.len() >= cs@.len(),
                i <= cs.len(),
                self.text@.len() - self.idx >= cs@.len(),
                len == self.text@.len(),
                forall|j: int| 0 <= j < i ==> r[j] == cs@[j],
            decreases cs.len() - i,
        {
            if self.text[self.idx + i] != cs[i] {
                assert(r.take(cs@.len() as int)[i as int] != cs@[i as int]);
                return false;
            }
            i += 1;
        }
        assert(r.take(cs@.len() as int) =~= cs@);
        self.unwrap_next_n(cs.len());
        true
    }
}

fn is_blank_char(c: char) -> (r: bool)
    ensures
        r == is_blank(c),
{
    c == '\t' || c == ' '
}

fn ends_unquoted_char(c: char) -> (r: bool)
    ensures
        r == ends_unquoted(c),
{
    c == '"' || c == '{' || c == '}' || c == ' ' || c == '\t' || c == '\r' || c == '\n'
}

fn is_control_char(c: char) -> (r: bool)
    ensures
        r == is_control(c),
{
    let u = c as u32;
    u <= 0x08 || (0x0A <= u && u <= 0x1F) || u == 0x7F
}

fn eat_whitespace<'a>(chars: &mut CharIter<'a, '_>) -> (ate: bool)
    requires
        old(chars).wf(),
    ensures
        old(chars).follows(final(chars)),
        final(chars).rest() == eat_blanks(old(chars).rest()),
        ate == (final(chars).idx > old(chars).idx),
{
    let mut ate = false;
    loop
        invariant
            old(chars).follows(chars),
            eat_blanks(chars.rest()) == eat_blanks(old(chars).rest()),
            ate == (chars.idx > old(chars).idx),
        ensures
            eat_blanks(chars.rest()) == chars.rest(),
        decreases chars.rest().len(),
    {
        match chars.peek() {
            Some(c) => {
                if is_blank_char(c) {
                    chars.unwrap_next();
                    ate = true;
                } else {
                    break;
                }
            },
            None => break,
        }
    }
    ate
}

fn eat_newlines<'a>(chars: &mut CharIter<'a, '_>) -> (ate: bool)
    requires
        old(chars).wf(),
    ensures
        old(chars).follows(final(chars)),
        final(chars).rest() == eat_line_ends(old(chars).rest()),
        ate == (final(chars).idx > old(chars).idx),
{
    let mut ate = false;
    loop
        invariant
            old(chars).follows(chars),
            eat_line_ends(chars.rest()) == eat_line_ends(old(chars).rest()),
            ate == (chars.idx > old(chars).idx),
        ensures
            eat_line_ends(chars.rest()) == chars.rest(),
        decreases chars.rest().len(),
    {
        let (a, b) = chars.peek_n();
        if a == Some('\n') {
            chars.unwrap_next();
            ate = true;
        } else if a == Some('\r') && b == Some('\n') {
            chars.unwrap_next_n(2);
            ate = true;
        } else {
            break;
        }
    }
    ate
}

fn eat_whitespace_and_newlines<'a>(chars: &mut CharIter<'a, '_>) -> (ate: bool)
    requires
        old(chars).wf(),
    ensures
        old(chars).follows(final(chars)),
        final(chars).rest() == eat_space(old(chars).rest()),
        ate == (final(chars).idx > old(chars).idx),
{
    let mut ate = false;
    loop
        invariant
            old(chars).follows(chars),
            eat_space(chars.rest()) == eat_space(old(chars).rest()),
            ate == (chars.idx > old(chars).idx),
        ensures
            eat_space(chars.rest()) == chars.rest(),
        decreases chars.rest().len(),
    {
        let ghost r = chars.rest();
        proof {
            lemma_eat_space_after_blanks(r);
        }
        if eat_whitespace(chars) {
            ate = true;
            continue;
        }
        proof {
            lemma_eat_space_after_line_ends(r);
        }
        if eat_newlines(chars) {
            ate = true;
            continue;
        }
        proof {
            lemma_eat_space_stops(r);
        }
        break;
    }
    ate
}

/// Eats a comment; `None` for a malformed one.
fn eat_comments<'a>(chars: &mut CharIter<'a, '_>) -> (r: Option<bool>)
    requires
        old(chars).wf(),
    ensures
        old(chars).follows(final(chars)),
        r is None == (eat_comment(old(chars).rest()) is None),
        r matches Some(ate) ==> final(chars).rest() == eat_comment(old(chars).rest())->0 && ate == (
        final(chars).idx > old(chars).idx),
{
    if !chars.next_n_if_eq(&['/', '/']) {
        return Some(false);
    }
    loop
        invariant_except_break
            eat_comment(old(chars).rest()) == comment_rest(chars.rest()),
        invariant
            old(chars).follows(chars),
            chars.idx > old(chars).idx,
        ensures
            eat_comment(old(chars).rest()) == Some(chars.rest()),
        decreases chars.rest().len(),
    {
        match chars.peek() {
            Some(c) => {
                if c == '\r' {
                    chars.unwrap_next();
                    if chars.next() == Some('\n') {
                        break;
                    } else {
                        return None;
                    }
                } else if c == '\n' {
                    break;
                } else if is_control_char(c) {
                    return None;
                } else {
                    chars.unwrap_next();
                }
            },
            None => break,
        }
    }
    Some(true)
}

/// Eats blanks, line ends and comments; `None` for a malformed comment.
fn eat_comments_whitespace_and_newlines<'a>(chars: &mut CharIter<'a, '_>) -> (r: Option<bool>)
    requires
        old(chars).wf(),
    ensures
        old(chars).follows(final(chars)),
        r is None == (eat_filler(old(chars).rest()) is None),
        r matches Some(ate) ==> final(chars).rest() == eat_filler(old(chars).rest())->0 && ate == (
        final(chars).idx > old(chars).idx),
{
    let mut ate = false;
    loop
        invariant
            old(chars).follows(chars),
            eat_filler(chars.rest()) == eat_filler(old(chars).rest()),
            ate == (chars.idx > old(chars).idx),
        ensures
            eat_filler(chars.rest()) == Some(chars.rest()),
        decreases chars.rest().len(),
    {
        if eat_whitespace_and_newlines(chars) {
            ate = true;
            continue;
        }
        match eat_comments(chars) {
            None => return None,
            Some(true) => {
                ate = true;
            },
            Some(false) => break,
        }
    }
    Some(ate)
}

/// Eats blanks and comments; `None` for a malformed comment.
fn eat_comments_and_whitespace<'a>(chars: &mut CharIter<'a, '_>) -> (r: Option<bool>)
    requires
        old(chars).wf(),
    ensures
        old(chars).follows(final(chars)),
        r is None == (eat_line_filler(old(chars).rest()) is None),
        r matches Some(ate) ==> final(chars).rest() == eat_line_filler(old(chars).rest())->0
            && ate == (final(chars).idx > old(chars).idx),
{
    let mut ate = false;
    loop
        invariant
            old(chars).follows(chars),
            eat_line_filler(chars.rest()) == eat_line_filler(old(chars).rest()),
            ate == (chars.idx > old(chars).idx),
        ensures
            eat_line_filler(chars.rest()) == Some(chars.rest()),
        decreases chars.rest().len(),
    {
        match eat_comments(chars) {
            None => return None,
            Some(true) => {
                ate = true;
                continue;
            },
            Some(false) => {},
        }
        if eat_whitespace(chars) {
            ate = true;
        } else {
            break;
        }
    }
    Some(ate)
}


/// The character that the escape sequence `\c` stands for.
fn escaped_char(c: char) -> (r: Option<char>)
    ensures
        r == unescape(c),
{
    if c == 'n' {
        Some('\n')
    } else if c == 'r' {
        Some('\r')
    } else if c == 't' {
        Some('\t')
    } else if c == '\\' {
        Some('\\')
    } else if c == '"' {
        Some('"')
    } else {
        None
    }
}

/// Whether the body of a quoted string, whose text after the opening quote
/// is `u`, holds no backslash where escape sequences are read: the closing
/// quote comes before any backslash. Such a body is taken as it stands.
spec fn plain_quoted(u: Seq<char>, escapes: bool) -> bool
    decreases u.len(),
{
    if u.len() == 0 {
        false
    } else if u[0] == '"' {
        true
    } else if escapes && u[0] == '\\' {
        false
    } else {
        plain_quoted(u.drop_first(), escapes)
    }
}

/// Whether every string read from `text` is taken as it stands: escape
/// sequences are not read, or the text holds no backslash.
pub open spec fn reads_plain(text: Seq<char>, escapes: bool) -> bool {
    !escapes || !text.contains('\\')
}

/// Whether `r` is what the parse `spec` yields, with `rest` left over.
spec fn read_as(r: Option<Cow<str>>, rest: Seq<char>, spec: Option<(Seq<char>, Seq<char>)>) -> bool {
    match spec {
        None => r is None,
        Some((s, t)) => r matches Some(x) && x@ == s && rest == t,
    }
}

fn parse_unquoted_string<'a>(chars: &mut CharIter<'a, '_>) -> (r: Option<Cow<'a, str>>)
    requires
        old(chars).wf(),
    ensures
        r matches Some(c) ==> c is Borrowed,
        old(chars).follows(final(chars)),
        read_as(r, final(chars).rest(), unquoted(old(chars).rest())),
        r is Some ==> final(chars).idx > old(chars).idx,
{
    let start = chars.index();
    let ghost r0 = chars.rest();
    let c = match chars.next() {
        Some(c) => c,
        None => return None,
    };
    if ends_unquoted_char(c) {
        return None;
    }
    proof {
        lemma_unquoted_len_step(r0);
    }
    loop
        invariant
            old(chars).follows(chars),
            start == old(chars).idx,
            r0 == old(chars).rest(),
            chars.idx > start,
            unquoted_len(r0) == (chars.idx - start) + unquoted_len(chars.rest()),
        ensures
            unquoted_len(chars.rest()) == 0,
        decreases chars.rest().len(),
    {
        match chars.peek() {
            Some(c) => {
                if ends_unquoted_char(c) {
                    break;
                }
                proof {
                    lemma_unquoted_len_step(chars.rest());
                }
                chars.unwrap_next();
            },
            None => break,
        }
    }
    let end = chars.index();
    let text = chars.original_str();
    let s = chars.slice(start, end);
    proof {
        assert(s@ =~= r0.take(unquoted_len(r0) as int));
        assert(chars.rest() =~= r0.skip(unquoted_len(r0) as int));
    }
    Some(Cow::Borrowed(s))
}

fn parse_quoted_raw_string<'a>(chars: &mut CharIter<'a, '_>) -> (r: Option<Cow<'a, str>>)
    requires
        old(chars).wf(),
        first(old(chars).rest()) == Some('"'),
    ensures
        r matches Some(c) ==> c is Borrowed,
        old(chars).follows(final(chars)),
        read_as(r, final(chars).rest(), quoted(old(chars).rest(), false)),
        r is Some ==> final(chars).idx > old(chars).idx,
{
    let opened = chars.ensure_next('"');
    assert(opened);
    let start = chars.index();
    let ghost u = chars.rest();
    let text = chars.original_str();
    assert(u =~= old(chars).rest().drop_first());
    assert(text@.subrange(start as int, start as int) =~= Seq::<char>::empty());
    loop
        invariant_except_break
            quoted_rest(u, false, seq![]) == quoted_rest(
                chars.rest(),
                false,
                text@.subrange(start as int, chars.idx as int),
            ),
        invariant
            old(chars).follows(chars),
            chars.text == text,
            start == old(chars).idx + 1,
            start <= chars.idx,
            u == text@.skip(start as int),
            u == old(chars).rest().drop_first(),
        ensures
            start < chars.idx,
            quoted_rest(u, false, seq![]) == Some(
                (text@.subrange(start as int, chars.idx - 1), chars.rest()),
            ),
        decreases chars.rest().len(),
    {
        let ghost acc = text@.subrange(start as int, chars.idx as int);
        let c = match chars.next() {
            Some(c) => c,
            None => return None,
        };
        if c == '"' {
            break;
        }
        assert(acc.push(c) =~= text@.subrange(start as int, chars.idx as int));
    }
    let end = chars.index() - 1;
    let s = chars.slice(start, end);
    Some(Cow::Borrowed(s))
}

fn parse_quoted_string<'a>(chars: &mut CharIter<'a, '_>, escape_chars: bool) -> (r: Option<Cow<'a, str>>)
    requires
        old(chars).wf(),
        first(old(chars).rest()) == Some('"'),
    ensures
        r matches Some(c) ==> (c is Borrowed <==> plain_quoted(old(chars).rest().drop_first(), escape_chars)),
        reads_plain(old(chars).text@, escape_chars) ==> (r matches Some(c) ==> c is Borrowed),
        old(chars).follows(final(chars)),
        read_as(r, final(chars).rest(), quoted(old(chars).rest(), escape_chars)),
        r is Some ==> final(chars).idx > old(chars).idx,
{
    let opened = chars.ensure_next('"');
    assert(opened);
    let start = chars.index();
    let ghost u = chars.rest();
    let text = chars.original_str();
    assert(u =~= old(chars).rest().drop_first());
    assert(text@.subrange(start as int, start as int) =~= Seq::<char>::empty());
    loop
        invariant
            old(chars).follows(chars),
            chars.text == text,
            start == old(chars).idx + 1,
            start <= chars.idx,
            u == text@.skip(start as int),
            u == old(chars).rest().drop_first(),
            quoted_rest(u, escape_chars, seq![]) == quoted_rest(
                chars.rest(),
                escape_chars,
                text@.subrange(start as int, chars.idx as int),
            ),
            plain_quoted(u, escape_chars) == plain_quoted(chars.rest(), escape_chars),
        ensures
            chars.rest().len() > 0,
            chars.rest()[0] == '"' || (escape_chars && chars.rest()[0] == '\\'),
        decreases chars.rest().len(),
    {
        let peeked = match chars.peek() {
            Some(c) => c,
            None => return None,
        };
        if peeked == '"' || (peeked == '\\' && escape_chars) {
            break;
        }
        let ghost acc = text@.subrange(start as int, chars.idx as int);
        chars.unwrap_next();
        assert(acc.push(peeked) =~= text@.subrange(start as int, chars.idx as int));
    }
    let end = chars.index();
    if chars.peek() == Some('"') {
        let text_chunk = chars.slice(start, end);
        let closed = chars.ensure_next('"');
        assert(closed);
        Some(Cow::Borrowed(text_chunk))
    } else {
        proof {
            assert(chars.rest()[0] == chars.text@[chars.idx as int]);
            if escape_chars {
                assert(chars.text@[chars.idx as int] == '\\');
                assert(chars.text@.contains('\\'));
            }
        }
        let mut escaped = string_from(text, start, end);
        loop
            invariant_except_break
                quoted_rest(u, escape_chars, seq![]) == quoted_rest(
                    chars.rest(),
                    escape_chars,
                    escaped@,
                ),
            invariant
                old(chars).follows(chars),
                chars.text == text,
                start <= chars.idx,
                escape_chars,
                u == old(chars).rest().drop_first(),
            ensures
                quoted_rest(u, escape_chars, seq![]) == Some((escaped@, chars.rest())),
            decreases chars.rest().len(),
        {
            let ghost prev = chars.rest();
            let ch = match chars.next() {
                Some(c) => c,
                None => return None,
            };
            if ch == '"' {
                break;
            } else if ch == '\\' {
                let e = match chars.next() {
                    Some(e) => e,
                    None => return None,
                };
                assert(chars.rest() =~= prev.skip(2));
                match escaped_char(e) {
                    Some(x) => push_char(&mut escaped, x),
                    None => return None,
                }
            } else {
                push_char(&mut escaped, ch);
            }
        }
        Some(Cow::Owned(escaped))
    }
}

fn parse_quoted_raw_or_unquoted_string<'a>(chars: &mut CharIter<'a, '_>) -> (r: Option<Cow<'a, str>>)
    requires
        old(chars).wf(),
    ensures
        r matches Some(c) ==> c is Borrowed,
        old(chars).follows(final(chars)),
        read_as(
            r,
            final(chars).rest(),
            if first(old(chars).rest()) == Some('"') {
                quoted(old(chars).rest(), false)
            } else {
                unquoted(old(chars).rest())
            },
        ),
        r is Some ==> final(chars).idx > old(chars).idx,
{
    if chars.peek() == Some('"') {
        parse_quoted_raw_string(chars)
    } else {
        parse_unquoted_string(chars)
    }
}

fn parse_string<'a>(chars: &mut CharIter<'a, '_>, escape_chars: bool) -> (r: Option<Key<'a>>)
    requires
        old(chars).wf(),
    ensures
        r matches Some(c) ==> (c is Borrowed <==> (first(old(chars).rest()) != Some('"')
            || plain_quoted(old(chars).rest().drop_first(), escape_chars))),
        reads_plain(old(chars).text@, escape_chars) ==> (r matches Some(c) ==> c is Borrowed),
        old(chars).follows(final(chars)),
        read_as(r, final(chars).rest(), string(old(chars).rest(), escape_chars)),
        r is Some ==> final(chars).idx > old(chars).idx,
{
    if chars.peek() == Some('"') {
        parse_quoted_string(chars, escape_chars)
    } else {
        parse_unquoted_string(chars)
    }
}


fn parse_value<'a>(chars: &mut CharIter<'a, '_>, escape_chars: bool) -> (r: Option<Value<'a>>)
    requires
        old(chars).wf(),
    ensures
        old(chars).follows(final(chars)),
        match value(old(chars).rest(), escape_chars) {
            None => r is None,
            Some((v, t)) => r matches Some(x) && x@ == v && final(chars).rest() == t,
        },
        r is Some ==> final(chars).idx > old(chars).idx,
        reads_plain(old(chars).text@, escape_chars) ==> (r matches Some(x) ==> value_borrowed(x)),
    decreases old(chars).rest().len(), 3nat,
{
    if chars.peek() == Some('{') {
        let obj = match parse_obj(chars, escape_chars) {
            Some(obj) => obj,
            None => return None,
        };
        Some(Value::Obj(obj))
    } else {
        let s = match parse_string(chars, escape_chars) {
            Some(s) => s,
            None => return None,
        };
        Some(Value::Str(s))
    }
}

fn parse_obj<'a>(chars: &mut CharIter<'a, '_>, escape_chars: bool) -> (r: Option<Obj<'a>>)
    requires
        old(chars).wf(),
        first(old(chars).rest()) == Some('{'),
    ensures
        old(chars).follows(final(chars)),
        match object(old(chars).rest(), escape_chars) {
            None => r is None,
            Some((v, t)) => r matches Some(x) && ValueV::Obj(x@) == v && final(chars).rest() == t,
        },
        r matches Some(x) ==> x.wf(),
        r is Some ==> final(chars).idx > old(chars).idx,
        reads_plain(old(chars).text@, escape_chars) ==> (r matches Some(x) ==> entries_borrowed(x.0@)),
    decreases old(chars).rest().len(), 2nat,
{
    let ghost r0 = chars.rest();
    let opened = chars.ensure_next('{');
    assert(opened);
    match eat_comments_whitespace_and_newlines(chars) {
        Some(_) => {},
        None => return None,
    }
    let mut obj = Obj::new();
    loop
        invariant_except_break
            object(r0, escape_chars) == object_rest(chars.rest(), escape_chars, obj@),
        invariant
            old(chars).follows(chars),
            r0 == old(chars).rest(),
            chars.idx > old(chars).idx,
            obj.wf(),
            reads_plain(old(chars).text@, escape_chars) ==> entries_borrowed(obj.0@),
        ensures
            object(r0, escape_chars) == Some((ValueV::Obj(obj@), chars.rest())),
        decreases chars.rest().len(),
    {
        let ghost r1 = chars.rest();
        let p = match chars.peek() {
            Some(p) => p,
            None => return None,
        };
        if p == '}' {
            let closed = chars.ensure_next('}');
            assert(closed);
            break;
        }
        let vdf = match parse_pair(chars, escape_chars) {
            Some(vdf) => vdf,
            None => return None,
        };
        obj.push_value(vdf.key, vdf.value);
        match eat_comments_whitespace_and_newlines(chars) {
            Some(_) => {},
            None => return None,
        }
        assert(chars.rest().len() < r1.len());
    }
    Some(obj)
}

fn parse_pair<'a>(chars: &mut CharIter<'a, '_>, escape_chars: bool) -> (r: Option<Vdf<'a>>)
    requires
        old(chars).wf(),
    ensures
        old(chars).follows(final(chars)),
        match pair(old(chars).rest(), escape_chars) {
            None => r is None,
            Some((k, v, t)) => r matches Some(x) && x.key@ == k && x.value@ == v
                && final(chars).rest() == t,
        },
        r is Some ==> final(chars).idx > old(chars).idx,
        reads_plain(old(chars).text@, escape_chars) ==> (r matches Some(x) ==> x.key is Borrowed
            && value_borrowed(x.value)),
    decreases old(chars).rest().len(), 0nat,
{
    let key = match parse_string(chars, escape_chars) {
        Some(key) => key,
        None => return None,
    };
    match eat_comments_whitespace_and_newlines(chars) {
        Some(_) => {},
        None => return None,
    }
    let value = match parse_value(chars, escape_chars) {
        Some(value) => value,
        None => return None,
    };
    Some(Vdf { key, value })
}


/// Reads a `#base` macro if the text goes on with one: `Some(true)` when one
/// was read (and added to `macros`), `Some(false)` when there is none, `None`
/// for a malformed one.
fn parse_maybe_macro<'a>(chars: &mut CharIter<'a, '_>, macros: &mut Vec<Cow<'a, str>>) -> (r: Option<bool>)
    requires
        old(chars).wf(),
    ensures
        old(chars).follows(final(chars)),
        match base_macro(old(chars).rest()) {
            None => r is None,
            Some(None) => r == Some(false) && final(chars).rest() == old(chars).rest()
                && final(macros)@ == old(macros)@,
            Some(Some((m, t))) => r == Some(true) && final(chars).rest() == t && strings_view(
                final(macros)@,
            ) == strings_view(old(macros)@).push(m),
        },
        r == Some(true) ==> final(chars).idx > old(chars).idx,
        (forall|i: int| 0 <= i < old(macros)@.len() ==> (#[trigger] old(macros)@[i]) is Borrowed)
            ==> (forall|i: int| 0 <= i < final(macros)@.len() ==> (#[trigger] final(macros)@[i]) is Borrowed),
{
    let ghost r0 = chars.rest();
    if !chars.next_n_if_eq(&['#', 'b', 'a', 's', 'e']) {
        return Some(false);
    }
    let ghost r1 = chars.rest();
    if !eat_whitespace(chars) {
        return None;
    }
    let macro_ = match parse_quoted_raw_or_unquoted_string(chars) {
        Some(m) => m,
        None => return None,
    };
    let ghost before = macros@;
    macros.push(macro_);
    proof {
        assert(strings_view(macros@) =~= strings_view(before).push(macro_@));
    }
    match eat_comments_and_whitespace(chars) {
        Some(_) => {},
        None => return None,
    }
    if eat_newlines(chars) {
        Some(true)
    } else {
        None
    }
}

fn parse_macros<'a>(chars: &mut CharIter<'a, '_>) -> (r: Option<Vec<Cow<'a, str>>>)
    requires
        old(chars).wf(),
    ensures
        old(chars).follows(final(chars)),
        match base_macros(old(chars).rest(), seq![]) {
            None => r is None,
            Some((ms, t)) => r matches Some(x) && strings_view(x@) == ms && final(chars).rest()
                == t,
        },
        r matches Some(x) ==> forall|i: int| 0 <= i < x@.len() ==> (#[trigger] x@[i]) is Borrowed,
{
    let mut macros: Vec<Cow<'a, str>> = Vec::new();
    let ghost r0 = chars.rest();
    assert(strings_view(macros@) =~= Seq::<Seq<char>>::empty());
    loop
        invariant_except_break
            base_macros(r0, seq![]) == base_macros(chars.rest(), strings_view(macros@)),
        invariant
            forall|i: int| 0 <= i < macros@.len() ==> (#[trigger] macros@[i]) is Borrowed,
            old(chars).follows(chars),
            r0 == old(chars).rest(),
        ensures
            base_macros(r0, seq![]) == Some((strings_view(macros@), chars.rest())),
        decreases chars.rest().len(),
    {
        let ghost ra = chars.rest();
        match eat_comments_whitespace_and_newlines(chars) {
            Some(_) => {},
            None => return None,
        }
        match parse_maybe_macro(chars, &mut macros) {
            None => return None,
            Some(false) => break,
            Some(true) => {},
        }
        match eat_comments_and_whitespace(chars) {
            Some(_) => {},
            None => return None,
        }
        assert(chars.rest().len() < ra.len());
    }
    Some(macros)
}

/// Parses VDF text, reading escape sequences in quoted strings when
/// `escape_chars` is set.
pub fn parse_<'a>(s: &'a str, escape_chars: bool) -> (r: Result<PartialVdf<'a>, Error>)
    ensures
        match vdf_text(s@, escape_chars) {
            None => r == Err::<PartialVdf, Error>(parse_error(escape_chars)),
            Some(p) => r matches Ok(v) && v@ == p,
        },
        r matches Ok(v) ==> value_wf(v.value@),
        r matches Ok(v) ==> forall|i: int| 0 <= i < v.bases@.len() ==> (#[trigger] v.bases@[i]) is Borrowed,
        r matches Ok(v) ==> (reads_plain(s@, escape_chars) ==> v.key is Borrowed && value_borrowed(v.value)),
{
    proof {
        law_parsed_values_are_wf(s@, escape_chars);
    }
    let text = chars_of(s);
    let mut chars = CharIter::new(s, &text);
    let bases = match parse_macros(&mut chars) {
        Some(bases) => bases,
        None => return Err(parse_error_of(escape_chars)),
    };
    let Vdf { key, value } = match parse_pair(&mut chars, escape_chars) {
        Some(vdf) => vdf,
        None => return Err(parse_error_of(escape_chars)),
    };
    match eat_comments_whitespace_and_newlines(&mut chars) {
        Some(_) => {},
        None => return Err(parse_error_of(escape_chars)),
    }
    // Some VDF files end with a NUL character
    let _ = chars.next_if_eq('\0');
    match eat_comments_whitespace_and_newlines(&mut chars) {
        Some(_) => {},
        None => return Err(parse_error_of(escape_chars)),
    }
    if chars.peek().is_some() {
        Err(parse_error_of(escape_chars))
    } else {
        Ok(PartialVdf { bases, key, value })
    }
}

fn parse_error_of(escape_chars: bool) -> (r: Error)
    ensures
        r == parse_error(escape_chars),
{
    if escape_chars {
        Error::EscapedParseError
    } else {
        Error::RawParseError
    }
}

/// Parses VDF text, reading escape sequences in quoted strings.
pub fn escaped_parse<'a>(s: &'a str) -> (r: Result<PartialVdf<'a>, Error>)
    ensures
        match vdf_text(s@, true) {
            None => r == Err::<PartialVdf, Error>(Error::EscapedParseError),
            Some(p) => r matches Ok(v) && v@ == p,
        },
        r matches Ok(v) ==> value_wf(v.value@),
        r matches Ok(v) ==> forall|i: int| 0 <= i < v.bases@.len() ==> (#[trigger] v.bases@[i]) is Borrowed,
        r matches Ok(v) ==> (!s@.contains('\\') ==> v.key is Borrowed && value_borrowed(v.value)),
{
    parse_(s, true)
}

/// Parses VDF text, taking quoted strings as they stand.
pub fn raw_parse<'a>(s: &'a str) -> (r: Result<PartialVdf<'a>, Error>)
    ensures
        match vdf_text(s@, false) {
            None => r == Err::<PartialVdf, Error>(Error::RawParseError),
            Some(p) => r matches Ok(v) && v@ == p,
        },
        r matches Ok(v) ==> value_wf(v.value@),
        r matches Ok(v) ==> forall|i: int| 0 <= i < v.bases@.len() ==> (#[trigger] v.bases@[i]) is Borrowed,
        r matches Ok(v) ==> v.key is Borrowed && value_borrowed(v.value),
{
    parse_(s, false)
}

impl<'a> PartialVdf<'a> {
    /// Parses VDF text, reading escape sequences in quoted strings.
    pub fn parse(s: &'a str) -> (r: Result<PartialVdf<'a>, Error>)
        ensures
            match vdf_text(s@, true) {
                None => r == Err::<PartialVdf, Error>(Error::EscapedParseError),
                Some(p) => r matches Ok(v) && v@ == p,
            },
            r matches Ok(v) ==> value_wf(v.value@),
            r matches Ok(v) ==> forall|i: int| 0 <= i < v.bases@.len() ==> (#[trigger] v.bases@[i]) is Borrowed,
            r matches Ok(v) ==> (!s@.contains('\\') ==> v.key is Borrowed && value_borrowed(v.value)),
    {
        escaped_parse(s)
    }

    /// Parses VDF text, taking quoted strings as they stand.
    pub fn parse_raw(s: &'a str) -> (r: Result<PartialVdf<'a>, Error>)
        ensures
            match vdf_text(s@, false) {
                None => r == Err::<PartialVdf, Error>(Error::RawParseError),
                Some(p) => r matches Ok(v) && v@ == p,
            },
            r matches Ok(v) ==> value_wf(v.value@),
            r matches Ok(v) ==> forall|i: int| 0 <= i < v.bases@.len() ==> (#[trigger] v.bases@[i]) is Borrowed,
            r matches Ok(v) ==> v.key is Borrowed && value_borrowed(v.value),
    {
        raw_parse(s)
    }
}

impl<'a> Vdf<'a> {
    /// Parses VDF text, reading escape sequences in quoted strings; the
    /// `#base` macros are dropped.
    pub fn parse(s: &'a str) -> (r: Result<Vdf<'a>, Error>)
        ensures
            match vdf_text(s@, true) {
                None => r == Err::<Vdf, Error>(Error::EscapedParseError),
                Some(p) => r matches Ok(v) && v@ == (VdfV { key: p.key, value: p.value }),
            },
            r matches Ok(v) ==> value_wf(v.value@),
            r matches Ok(v) ==> (!s@.contains('\\') ==> v.key is Borrowed && value_borrowed(v.value)),
    {
        match PartialVdf::parse(s) {
            Ok(p) => Ok(Vdf::from(p)),
            Err(e) => Err(e),
        }
    }

    /// Parses VDF text, taking quoted strings as they stand; the `#base`
    /// macros are dropped.
    pub fn parse_raw(s: &'a str) -> (r: Result<Vdf<'a>, Error>)
        ensures
            match vdf_text(s@, false) {
                None => r == Err::<Vdf, Error>(Error::RawParseError),
                Some(p) => r matches Ok(v) && v@ == (VdfV { key: p.key, value: p.value }),
            },
            r matches Ok(v) ==> value_wf(v.value@),
            r matches Ok(v) ==> v.key is Borrowed && value_borrowed(v.value),
    {
        match PartialVdf::parse_raw(s) {
            Ok(p) => Ok(Vdf::from(p)),
            Err(e) => Err(e),
        }
    }
}

} // verus!
