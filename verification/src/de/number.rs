//! Integers written in decimal, read as `str::parse` reads them: an optional
//! sign, then one or more ASCII digits, with no other character.
use vstd::prelude::*;

use crate::strings::chars_of;

verus! {

/// Whether `c` is an ASCII digit.
pub open spec fn is_digit(c: char) -> bool {
    '0' <= c && c <= '9'
}

/// The value of an ASCII digit.
pub open spec fn digit_value(c: char) -> nat {
    ((c as int) - ('0' as int)) as nat
}

/// The value of a string of ASCII digits.
pub open spec fn decimal(d: Seq<char>) -> nat
    decreases d.len(),
{
    if d.len() == 0 {
        0
    } else {
        decimal(d.drop_last()) * 10 + digit_value(d.last())
    }
}

/// The value of `d` when it is one or more ASCII digits.
pub open spec fn digits_value(d: Seq<char>) -> Option<nat> {
    if d.len() > 0 && forall|i: int| 0 <= i < d.len() ==> is_digit(#[trigger] d[i]) {
        Some(decimal(d))
    } else {
        None
    }
}

/// The integer that `s` writes, for a type that is `signed` or not: a `+`,
/// or for a signed type a `-`, may stand before the digits.
pub open spec fn int_text(s: Seq<char>, signed: bool) -> Option<int> {
    if s.len() == 0 {
        None
    } else if (s[0] == '+' || s[0] == '-') && s.len() == 1 {
        None
    } else if s[0] == '+' {
        match digits_value(s.drop_first()) {
            Some(n) => Some(n as int),
            None => None,
        }
    } else if s[0] == '-' && signed {
        match digits_value(s.drop_first()) {
            Some(n) => Some(-(n as int)),
            None => None,
        }
    } else {
        match digits_value(s) {
            Some(n) => Some(n as int),
            None => None,
        }
    }
}

/// Above every value of a 64-bit integer.
pub open spec fn big() -> int {
    0x1_0000_0000_0000_0000_0000
}

proof fn lemma_decimal_step(d: Seq<char>, c: char)
    ensures
        decimal(d.push(c)) == decimal(d) * 10 + digit_value(c),
{
    assert(d.push(c).drop_last() =~= d);
}

/// Reads the digits `cs[start..]`: their value, or `None` when one of them
/// is not a digit, when there are none, or when the value is at least
/// [`big`].
fn read_digits(cs: &Vec<char>, start: usize) -> (r: Option<u128>)
    requires
        start <= cs.len(),
    ensures
        match digits_value(cs@.skip(start as int)) {
            None => r is None,
            Some(n) => if n < big() {
                r == Some(n as u128)
            } else {
                r is None
            },
        },
{
    let ghost d = cs@.skip(start as int);
    if start == cs.len() {
        return None;
    }
    let mut acc: u128 = 0;
    let mut over = false;
    let mut i = start;
    while i < cs.len()
        invariant
            start <= i <= cs.len(),
            d == cs@.skip(start as int),
            forall|j: int| start <= j < i ==> is_digit(#[trigger] cs@[j]),
            !over ==> acc == decimal(cs@.subrange(start as int, i as int)),
            over ==> decimal(cs@.subrange(start as int, i as int)) >= big(),
            acc < big(),
        decreases cs.len() - i,
    {
        let c = cs[i];
        if !('0' <= c && c <= '9') {
            assert(!is_digit(d[i - start]));
            return None;
        }
        let ghost prefix = cs@.subrange(start as int, i as int);
        proof {
            lemma_decimal_step(prefix, c);
            assert(cs@.subrange(start as int, i + 1) =~= prefix.push(c));
        }
        let dv = (c as u32 - '0' as u32) as u128;
        assert(dv == digit_value(c));
        if !over {
            let next = acc * 10 + dv;
            if next < 0x1_0000_0000_0000_0000_0000 {
                acc = next;
            } else {
                over = true;
            }
        }
        i += 1;
    }
    assert(cs@.subrange(start as int, cs.len() as int) =~= d);
    assert forall|j: int| 0 <= j < d.len() implies is_digit(#[trigger] d[j]) by {
        assert(d[j] == cs@[start + j]);
    }
    if over {
        None
    } else {
        Some(acc)
    }
}

/// Reads the integer that `s` writes, for a type that is `signed` or not:
/// its value, or `None` when `s` writes none or one too large for any
/// 64-bit type.
pub fn read_int(s: &str, signed: bool) -> (r: Option<i128>)
    ensures
        match int_text(s@, signed) {
            None => r is None,
            Some(n) => if -big() < n < big() {
                r == Some(n as i128)
            } else {
                r is None
            },
        },
{
    let cs = chars_of(s);
    if cs.len() == 0 {
        return None;
    }
    let first = cs[0];
    if (first == '+' || first == '-') && cs.len() == 1 {
        return None;
    }
    if first == '+' || (first == '-' && signed) {
        assert(cs@.skip(1) =~= s@.drop_first());
        match read_digits(&cs, 1) {
            Some(n) => if first == '+' {
                Some(n as i128)
            } else {
                Some(-(n as i128))
            },
            None => None,
        }
    } else {
        assert(cs@.skip(0) =~= s@);
        match read_digits(&cs, 0) {
            Some(n) => Some(n as i128),
            None => None,
        }
    }
}

} // verus!
