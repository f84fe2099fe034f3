//! The grammar of VDF text, as functions from the text that remains to be
//! read to what is read and the text that remains after it.
use vstd::prelude::*;

use crate::value::{obj_push, ObjV, PartialVdfV, ValueV};

verus! {

/// A blank that separates tokens on a line.
pub open spec fn is_blank(c: char) -> bool {
    c == '\t' || c == ' '
}

/// A character that ends an unquoted string.
pub open spec fn ends_unquoted(c: char) -> bool {
    c == '"' || c == '{' || c == '}' || c == ' ' || c == '\t' || c == '\r' || c == '\n'
}

/// A control character that may not stand in a comment.
pub open spec fn is_control(c: char) -> bool {
    (c as u32) <= 0x08 || (0x0A <= (c as u32) && (c as u32) <= 0x1F) || (c as u32) == 0x7F
}

/// The character that an escape sequence `\c` stands for.
pub open spec fn unescape(c: char) -> Option<char> {
    if c == 'n' {
        Some('\n')
    } else if c == 'r' {
        Some('\r')
    } else if c == 't' {
        Some('\t')
    } else if c == '\\' {
        Some('\\')
    } else if c == '"' {
        Some('"')
    } else {
        None
    }
}

/// `r` without its leading blanks.
pub open spec fn eat_blanks(r: Seq<char>) -> Seq<char>
    decreases r.len(),
{
    if r.len() > 0 && is_blank(r[0]) {
        eat_blanks(r.drop_first())
    } else {
        r
    }
}

/// `r` without its leading line ends (`\n` or `\r\n`).
pub open spec fn eat_line_ends(r: Seq<char>) -> Seq<char>
    decreases r.len(),
{
    if r.len() > 0 && r[0] == '\n' {
        eat_line_ends(r.drop_first())
    } else if r.len() > 1 && r[0] == '\r' && r[1] == '\n' {
        eat_line_ends(r.skip(2))
    } else {
        r
    }
}

/// `r` without its leading blanks and line ends.
pub open spec fn eat_space(r: Seq<char>) -> Seq<char>
    decreases r.len(),
{
    if r.len() > 0 && (is_blank(r[0]) || r[0] == '\n') {
        eat_space(r.drop_first())
    } else if r.len() > 1 && r[0] == '\r' && r[1] == '\n' {
        eat_space(r.skip(2))
    } else {
        r
    }
}

/// What follows the text of a comment, which starts after its `//`: the
/// comment ends at the end of the text, before a `\n` or after a `\r\n`.
/// `None` when a control character (or a `\r` without `\n`) stands in it.
pub open spec fn comment_rest(r: Seq<char>) -> Option<Seq<char>>
    decreases r.len(),
{
    if r.len() == 0 {
        Some(r)
    } else if r[0] == '\r' {
        if r.len() > 1 && r[1] == '\n' {
            Some(r.skip(2))
        } else {
            None
        }
    } else if r[0] == '\n' {
        Some(r)
    } else if is_control(r[0]) {
        None
    } else {
        comment_rest(r.drop_first())
    }
}

/// Whether `r` starts with `p`.
pub open spec fn starts_with(r: Seq<char>, p: Seq<char>) -> bool {
    r.len() >= p.len() && r.take(p.len() as int) == p
}

/// `r` without a leading comment; `None` for a malformed comment.
pub open spec fn eat_comment(r: Seq<char>) -> Option<Seq<char>> {
    if starts_with(r, seq!['/', '/']) {
        comment_rest(r.skip(2))
    } else {
        Some(r)
    }
}

/// `r` without its leading blanks, line ends and comments.
pub open spec fn eat_filler(r: Seq<char>) -> Option<Seq<char>>
    decreases r.len(),
{
    let r1 = eat_space(r);
    if r1.len() < r.len() {
        eat_filler(r1)
    } else {
        match eat_comment(r) {
            None => None,
            Some(r2) => if r2.len() < r.len() {
                eat_filler(r2)
            } else {
                Some(r)
            },
        }
    }
}

/// `r` without its leading blanks and comments (line ends stay).
pub open spec fn eat_line_filler(r: Seq<char>) -> Option<Seq<char>>
    decreases r.len(),
{
    match eat_comment(r) {
        None => None,
        Some(r2) => if r2.len() < r.len() {
            eat_line_filler(r2)
        } else {
            let r1 = eat_blanks(r);
            if r1.len() < r.len() {
                eat_line_filler(r1)
            } else {
                Some(r)
            }
        },
    }
}

/// The number of leading characters of `r` that an unquoted string takes.
pub open spec fn unquoted_len(r: Seq<char>) -> nat
    decreases r.len(),
{
    if r.len() > 0 && !ends_unquoted(r[0]) {
        1 + unquoted_len(r.drop_first())
    } else {
        0
    }
}

/// An unquoted string: at least one character, up to the first that ends it.
pub open spec fn unquoted(r: Seq<char>) -> Option<(Seq<char>, Seq<char>)> {
    let n = unquoted_len(r);
    if n == 0 {
        None
    } else {
        Some((r.take(n as int), r.skip(n as int)))
    }
}

/// The rest of a quoted string after its opening `"`, with `acc` read so far:
/// up to the closing `"`. With `escapes`, a `\` starts an escape sequence.
pub open spec fn quoted_rest(r: Seq<char>, escapes: bool, acc: Seq<char>) -> Option<
    (Seq<char>, Seq<char>),
>
    decreases r.len(),
{
    if r.len() == 0 {
        None
    } else if r[0] == '"' {
        Some((acc, r.drop_first()))
    } else if escapes && r[0] == '\\' {
        if r.len() < 2 {
            None
        } else {
            match unescape(r[1]) {
                None => None,
                Some(c) => quoted_rest(r.skip(2), escapes, acc.push(c)),
            }
        }
    } else {
        quoted_rest(r.drop_first(), escapes, acc.push(r[0]))
    }
}

/// A quoted string, which `r` must start with.
pub open spec fn quoted(r: Seq<char>, escapes: bool) -> Option<(Seq<char>, Seq<char>)> {
    if r.len() > 0 && r[0] == '"' {
        quoted_rest(r.drop_first(), escapes, seq![])
    } else {
        None
    }
}

/// A quoted or an unquoted string.
pub open spec fn string(r: Seq<char>, escapes: bool) -> Option<(Seq<char>, Seq<char>)> {
    if r.len() > 0 && r[0] == '"' {
        quoted(r, escapes)
    } else {
        unquoted(r)
    }
}

/// A value: an object when `r` starts with `{`, else a string.
pub open spec fn value(r: Seq<char>, escapes: bool) -> Option<(ValueV, Seq<char>)>
    decreases r.len(), 3nat,
{
    if r.len() > 0 && r[0] == '{' {
        object(r, escapes)
    } else {
        match string(r, escapes) {
            None => None,
            Some((s, rest)) => Some((ValueV::Str(s), rest)),
        }
    }
}

/// An object, which `r` must start with (`{`).
pub open spec fn object(r: Seq<char>, escapes: bool) -> Option<(ValueV, Seq<char>)>
    decreases r.len(), 2nat,
{
    if r.len() > 0 && r[0] == '{' {
        match eat_filler(r.drop_first()) {
            None => None,
            Some(r1) => if r1.len() < r.len() {
                object_rest(r1, escapes, seq![])
            } else {
                None
            },
        }
    } else {
        None
    }
}

/// The pairs of an object up to its closing `}`, where `acc` holds the pairs
/// read so far (a key read again gets the value added to its list).
pub open spec fn object_rest(r: Seq<char>, escapes: bool, acc: ObjV) -> Option<(ValueV, Seq<char>)>
    decreases r.len(), 1nat,
{
    if r.len() == 0 {
        None
    } else if r[0] == '}' {
        Some((ValueV::Obj(acc), r.drop_first()))
    } else {
        match pair(r, escapes) {
            None => None,
            Some((k, v, r2)) => match eat_filler(r2) {
                None => None,
                Some(r3) => if r3.len() < r.len() {
                    object_rest(r3, escapes, obj_push(acc, k, v))
                } else {
                    None
                },
            },
        }
    }
}

/// A key and its value.
pub open spec fn pair(r: Seq<char>, escapes: bool) -> Option<(Seq<char>, ValueV, Seq<char>)>
    decreases r.len(), 0nat,
{
    match string(r, escapes) {
        None => None,
        Some((k, r1)) => match eat_filler(r1) {
            None => None,
            Some(r2) => if r2.len() < r.len() {
                match value(r2, escapes) {
                    None => None,
                    Some((v, r3)) => Some((k, v, r3)),
                }
            } else {
                None
            },
        },
    }
}

/// The word that starts a macro.
pub open spec fn base_word() -> Seq<char> {
    seq!['#', 'b', 'a', 's', 'e']
}

/// A `#base` macro, when `r` starts with one: the word, blanks, a raw quoted
/// or unquoted string, blanks or comments, and line ends.
/// `None`: a malformed macro; `Some(None)`: no macro.
pub open spec fn base_macro(r: Seq<char>) -> Option<Option<(Seq<char>, Seq<char>)>> {
    if starts_with(r, base_word()) {
        let r1 = r.skip(5);
        let r2 = eat_blanks(r1);
        if r2.len() == r1.len() {
            None
        } else {
            let s = if r2.len() > 0 && r2[0] == '"' {
                quoted(r2, false)
            } else {
                unquoted(r2)
            };
            match s {
                None => None,
                Some((m, r3)) => match eat_line_filler(r3) {
                    None => None,
                    Some(r4) => {
                        let r5 = eat_line_ends(r4);
                        if r5.len() < r4.len() {
                            Some(Some((m, r5)))
                        } else {
                            None
                        }
                    },
                },
            }
        }
    } else {
        Some(None)
    }
}

/// The `#base` macros at the start of `r`, after those in `acc`.
pub open spec fn base_macros(r: Seq<char>, acc: Seq<Seq<char>>) -> Option<
    (Seq<Seq<char>>, Seq<char>),
>
    decreases r.len(),
{
    match eat_filler(r) {
        None => None,
        Some(r1) => match base_macro(r1) {
            None => None,
            Some(None) => Some((acc, r1)),
            Some(Some((m, r2))) => match eat_line_filler(r2) {
                None => None,
                Some(r3) => if r3.len() < r.len() {
                    base_macros(r3, acc.push(m))
                } else {
                    None
                },
            },
        },
    }
}

/// VDF text: `#base` macros, one pair, and at most one NUL character amid
/// blanks, line ends and comments.
pub open spec fn vdf_text(s: Seq<char>, escapes: bool) -> Option<PartialVdfV> {
    match base_macros(s, seq![]) {
        None => None,
        Some((bases, r1)) => match pair(r1, escapes) {
            None => None,
            Some((k, v, r2)) => match eat_filler(r2) {
                None => None,
                Some(r3) => {
                    let r4 = if r3.len() > 0 && r3[0] == '\0' {
                        r3.drop_first()
                    } else {
                        r3
                    };
                    match eat_filler(r4) {
                        None => None,
                        Some(r5) => if r5.len() == 0 {
                            Some(PartialVdfV { key: k, value: v, bases })
                        } else {
                            None
                        },
                    }
                },
            },
        },
    }
}


/// Eating blanks first does not change what eating blanks and line ends
/// leaves.
pub proof fn lemma_eat_space_after_blanks(r: Seq<char>)
    ensures
        eat_space(eat_blanks(r)) == eat_space(r),
    decreases r.len(),
{
    if r.len() > 0 && is_blank(r[0]) {
        lemma_eat_space_after_blanks(r.drop_first());
    }
}

/// Eating line ends first does not change what eating blanks and line ends
/// leaves.
pub proof fn lemma_eat_space_after_line_ends(r: Seq<char>)
    ensures
        eat_space(eat_line_ends(r)) == eat_space(r),
    decreases r.len(),
{
    if r.len() > 0 && r[0] == '\n' {
        lemma_eat_space_after_line_ends(r.drop_first());
    } else if r.len() > 1 && r[0] == '\r' && r[1] == '\n' {
        lemma_eat_space_after_line_ends(r.skip(2));
    }
}

pub proof fn lemma_eat_blanks_len(r: Seq<char>)
    ensures
        eat_blanks(r).len() <= r.len(),
    decreases r.len(),
{
    if r.len() > 0 && is_blank(r[0]) {
        lemma_eat_blanks_len(r.drop_first());
    }
}

pub proof fn lemma_eat_line_ends_len(r: Seq<char>)
    ensures
        eat_line_ends(r).len() <= r.len(),
    decreases r.len(),
{
    if r.len() > 0 && r[0] == '\n' {
        lemma_eat_line_ends_len(r.drop_first());
    } else if r.len() > 1 && r[0] == '\r' && r[1] == '\n' {
        lemma_eat_line_ends_len(r.skip(2));
    }
}

/// Where neither blanks nor line ends are eaten, nothing is.
pub proof fn lemma_eat_space_stops(r: Seq<char>)
    requires
        eat_blanks(r) == r,
        eat_line_ends(r) == r,
    ensures
        eat_space(r) == r,
{
    if r.len() > 0 && is_blank(r[0]) {
        lemma_eat_blanks_len(r.drop_first());
    }
    if r.len() > 0 && r[0] == '\n' {
        lemma_eat_line_ends_len(r.drop_first());
    }
    if r.len() > 1 && r[0] == '\r' && r[1] == '\n' {
        lemma_eat_line_ends_len(r.skip(2));
    }
}

/// The number of characters of an unquoted string, counted from a point after
/// its start.
pub proof fn lemma_unquoted_len_step(r: Seq<char>)
    requires
        r.len() > 0,
        !ends_unquoted(r[0]),
    ensures
        unquoted_len(r) == 1 + unquoted_len(r.drop_first()),
{
}

} // verus!
