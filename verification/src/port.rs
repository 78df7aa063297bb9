//! The port descriptor: the text of a file that names the port to connect to.
//!
//! The file holds a port number in decimal, with white space around it at
//! most. It is written by the other side and may be missing, empty or stale;
//! this module only says which texts name a port, and which port.

use vstd::prelude::*;
use vstd::std_specs::iter::IteratorSpec;

verus! {

/// Whether a character is white space: one of the characters with the Unicode
/// property `White_Space`.
pub open spec fn is_white_space(c: char) -> bool {
    let u = c as u32;
    ||| 0x09 <= u <= 0x0d
    ||| u == 0x20
    ||| u == 0x85
    ||| u == 0xa0
    ||| u == 0x1680
    ||| 0x2000 <= u <= 0x200a
    ||| u == 0x2028
    ||| u == 0x2029
    ||| u == 0x202f
    ||| u == 0x205f
    ||| u == 0x3000
}

/// Whether a character is one of the digits `0` to `9`.
pub open spec fn is_decimal_digit(c: char) -> bool {
    0x30 <= c as u32 <= 0x39
}

/// A text without the white space at its beginning.
pub open spec fn trim_start(text: Seq<char>) -> Seq<char>
    decreases text.len(),
{
    if text.len() > 0 && is_white_space(text.first()) {
        trim_start(text.drop_first())
    } else {
        text
    }
}

/// A text without the white space at its end.
pub open spec fn trim_end(text: Seq<char>) -> Seq<char>
    decreases text.len(),
{
    if text.len() > 0 && is_white_space(text.last()) {
        trim_end(text.drop_last())
    } else {
        text
    }
}

/// A text without the white space around it.
pub open spec fn trimmed(text: Seq<char>) -> Seq<char> {
    trim_end(trim_start(text))
}

/// Whether every character of a text is a decimal digit.
pub open spec fn all_decimal_digits(text: Seq<char>) -> bool {
    forall|i: int| 0 <= i < text.len() ==> is_decimal_digit(#[trigger] text[i])
}

/// The number that a text of decimal digits denotes.
pub open spec fn decimal_value(digits: Seq<char>) -> int
    decreases digits.len(),
{
    if digits.len() == 0 {
        0
    } else {
        decimal_value(digits.drop_last()) * 10 + (digits.last() as u32 - 0x30)
    }
}

/// The digits of an unsigned decimal number: the text itself, or what follows
/// a single `+` in front of it.
pub open spec fn unsigned_digits(text: Seq<char>) -> Seq<char> {
    if text.len() > 0 && text.first() == '+' {
        text.drop_first()
    } else {
        text
    }
}

/// The port that a descriptor names: the value of its text without the white
/// space around it, where that is one or more decimal digits, a `+` in front
/// of them at most, and the value fits in 16 bits. `None` for any other text.
pub open spec fn port_of_descriptor(text: Seq<char>) -> Option<u16> {
    let digits = unsigned_digits(trimmed(text));
    if digits.len() > 0 && all_decimal_digits(digits) && decimal_value(digits) <= u16::MAX {
        Some(decimal_value(digits) as u16)
    } else {
        None
    }
}

/// Tells whether a character is white space.
fn white_space(c: char) -> (yes: bool)
    ensures
        yes == is_white_space(c),
{
    let u = c as u32;
    (0x09 <= u && u <= 0x0d) || u == 0x20 || u == 0x85 || u == 0xa0 || u == 0x1680 || (0x2000 <= u
        && u <= 0x200a) || u == 0x2028 || u == 0x2029 || u == 0x202f || u == 0x205f || u == 0x3000
}

/// Collects the characters of a string.
fn characters(text: &str) -> (chars: Vec<char>)
    ensures
        chars@ == text@,
{
    let mut chars: Vec<char> = Vec::new();
    let mut rest = text.chars();
    loop
        invariant
            rest.obeys_prophetic_iter_laws(),
            rest.decrease() is Some,
            chars@ + rest.remaining() == text@,
        decreases rest.decrease()->0,
    {
        match rest.next() {
            Some(c) => {
                chars.push(c);
                assert(chars@ + rest.remaining() =~= text@);
            },
            None => {
                assert(chars@ =~= text@);
                return chars;
            },
        }
    }
}

/// Finds the text without the white space around it: where it begins and where
/// it ends.
fn trim_bounds(chars: &Vec<char>) -> (bounds: (usize, usize))
    ensures
        bounds.0 <= bounds.1 <= chars@.len(),
        chars@.subrange(bounds.0 as int, bounds.1 as int) == trimmed(chars@),
{
    let len = chars.len();
    let mut start: usize = 0;
    assert(chars@.subrange(0, len as int) =~= chars@);
    while start < len && white_space(chars[start])
        invariant
            start <= len,
            len == chars@.len(),
            trim_start(chars@) == trim_start(chars@.subrange(start as int, len as int)),
        decreases len - start,
    {
        assert(chars@.subrange(start as int, len as int).drop_first() =~= chars@.subrange(
            start + 1,
            len as int,
        ));
        start = start + 1;
    }
    let ghost rest = chars@.subrange(start as int, len as int);
    assert(trim_start(chars@) == rest);
    let mut end: usize = len;
    while end > start && white_space(chars[end - 1])
        invariant
            start <= end <= len,
            len == chars@.len(),
            rest == chars@.subrange(start as int, len as int),
            trim_end(rest) == trim_end(chars@.subrange(start as int, end as int)),
        decreases end - start,
    {
        assert(chars@.subrange(start as int, end as int).drop_last() =~= chars@.subrange(
            start as int,
            end - 1,
        ));
        end = end - 1;
    }
    (start, end)
}

/// Reads a port descriptor.
///
/// The text names a port if, without the white space around it, it is a
/// decimal number of at most 65535, written with digits only and a `+` in
/// front of them at most. Then the result is that port; for any other text,
/// the empty one included, it is `None`.
pub fn parse_port_descriptor(contents: &str) -> (port: Option<u16>)
    ensures
        port == port_of_descriptor(contents@),
{
    let chars = characters(contents);
    let (start, end) = trim_bounds(&chars);
    let ghost text = trimmed(contents@);
    let first = if start < end && chars[start] == '+' {
        start + 1
    } else {
        start
    };
    let ghost digits = unsigned_digits(text);
    assert(digits =~= chars@.subrange(first as int, end as int)) by {
        if start < end && chars@[start as int] == '+' {
            assert(text.first() == chars@[start as int]);
        } else if start < end {
            assert(text.first() == chars@[start as int]);
        }
    }
    if first == end {
        return None;
    }
    let mut value: u32 = 0;
    let mut fits = true;
    let mut i: usize = first;
    while i < end
        invariant
            first <= i <= end <= chars@.len(),
            digits == chars@.subrange(first as int, end as int),
            digits == unsigned_digits(trimmed(contents@)),
            all_decimal_digits(digits.subrange(0, i - first)),
            fits ==> value == decimal_value(digits.subrange(0, i - first)) && value <= u16::MAX,
            !fits ==> decimal_value(digits.subrange(0, i - first)) > u16::MAX,
        decreases end - i,
    {
        let u = chars[i] as u32;
        let ghost before = digits.subrange(0, i - first);
        let ghost after = digits.subrange(0, i - first + 1);
        assert(after.drop_last() =~= before);
        assert(after.last() == chars@[i as int]);
        if u < 0x30 || u > 0x39 {
            assert(digits[i - first] == chars@[i as int]);
            assert(!is_decimal_digit(digits[i - first]));
            return None;
        }
        assert forall|k: int| 0 <= k < after.len() implies is_decimal_digit(
            #[trigger] after[k],
        ) by {
            if k < before.len() {
                assert(after[k] == before[k]);
            }
        }
        if fits {
            value = value * 10 + (u - 0x30);
            if value > 0xffff {
                fits = false;
            }
        }
        i = i + 1;
    }
    assert(digits.subrange(0, end - first) =~= digits);
    if fits {
        Some(value as u16)
    } else {
        None
    }
}

} // verus!
