//! Character classes and text building on top of std.

use vstd::prelude::*;
use vstd::string::*;

verus! {

/// Whether a character has the Unicode `Alphabetic` property.
pub uninterp spec fn alphabetic(c: char) -> bool;

/// Whether a character has the Unicode `White_Space` property.
pub uninterp spec fn white_space(c: char) -> bool;

/// Whether a character is in one of the Unicode numeric categories.
pub uninterp spec fn numeric(c: char) -> bool;

pub open spec fn ascii_letter(c: char) -> bool {
    ('a' <= c && c <= 'z') || ('A' <= c && c <= 'Z')
}

pub open spec fn ascii_digit(c: char) -> bool {
    '0' <= c && c <= '9'
}

pub open spec fn is_ascii(c: char) -> bool {
    (c as u32) < 128
}

/// ASCII white space as Unicode has it: tab to carriage return, and space.
pub open spec fn ascii_space(c: char) -> bool {
    c == ' ' || ('\t' <= c && c <= '\r')
}

/// A letter: an ASCII one, or any character with the Alphabetic property.
pub open spec fn letter(c: char) -> bool {
    if is_ascii(c) { ascii_letter(c) } else { alphabetic(c) }
}

/// White space: exact on ASCII, the White_Space property elsewhere.
pub open spec fn space(c: char) -> bool {
    if is_ascii(c) { ascii_space(c) } else { white_space(c) }
}

/// A numeric character: an ASCII digit, or one of the numeric categories.
pub open spec fn digit_like(c: char) -> bool {
    if is_ascii(c) { ascii_digit(c) } else { numeric(c) }
}

/// Relies on `char::is_alphabetic`: the Alphabetic property, which among
/// ASCII characters holds of the letters alone.
#[verifier::external_body]
pub(crate) fn is_alphabetic(c: char) -> (r: bool)
    ensures
        r == alphabetic(c),
        is_ascii(c) ==> (r <==> ascii_letter(c)),
{
    c.is_alphabetic()
}

/// Relies on `char::is_whitespace`: the White_Space property, which among
/// ASCII characters holds of tab, line feed, vertical tab, form feed,
/// carriage return and space.
#[verifier::external_body]
pub(crate) fn is_whitespace(c: char) -> (r: bool)
    ensures
        r == white_space(c),
        is_ascii(c) ==> (r <==> ascii_space(c)),
{
    c.is_whitespace()
}

/// Relies on `char::is_numeric`: the numeric general categories, which
/// among ASCII characters hold of the digits alone.
#[verifier::external_body]
pub(crate) fn is_numeric(c: char) -> (r: bool)
    ensures
        r == numeric(c),
        is_ascii(c) ==> (r <==> ascii_digit(c)),
{
    c.is_numeric()
}

/// Relies on `String::push`: appends one character.
#[verifier::external_body]
pub(crate) fn push_char(s: &mut String, c: char)
    ensures
        final(s)@ == old(s)@.push(c),
{
    s.push(c)
}

/// The characters `chars[from..to]` as a string.
pub fn string_of(chars: &Vec<char>, from: usize, to: usize) -> (r: String)
    requires
        from <= to <= chars@.len(),
    ensures
        r@ == chars@.subrange(from as int, to as int),
{
    let mut r = String::new();
    let mut i: usize = from;
    while i < to
        invariant
            from <= i <= to <= chars@.len(),
            r@ == chars@.subrange(from as int, i as int),
        decreases to - i,
    {
        push_char(&mut r, chars[i]);
        assert(chars@.subrange(from as int, i + 1) == chars@.subrange(from as int, i as int).push(chars@[i as int]));
        i += 1;
    }
    r
}

/// The characters of a string slice, in order.
pub fn chars_of(s: &str) -> (r: Vec<char>)
    ensures
        r@ == s@,
{
    let n = s.unicode_len();
    let mut r: Vec<char> = Vec::new();
    let mut i: usize = 0;
    while i < n
        invariant
            n == s@.len(),
            i <= n,
            r@ == s@.subrange(0, i as int),
        decreases n - i,
    {
        r.push(s.get_char(i));
        assert(s@.subrange(0, i + 1) == s@.subrange(0, i as int).push(s@[i as int]));
        i += 1;
    }
    assert(s@.subrange(0, n as int) == s@);
    r
}

} // verus!
