//! Character classification and the one string-building primitive the
//! tokenizer needs.

use vstd::prelude::*;

verus! {

/// The character of `s` at position `i`, or the sentinel when `i` is out of
/// range.
pub open spec fn char_at(s: Seq<char>, i: int) -> char {
    if 0 <= i < s.len() {
        s[i]
    } else {
        '\0'
    }
}

/// The scan position after advancing once from `i`: positions are capped at
/// the input length, where every read yields the sentinel.
pub open spec fn advance_pos(s: Seq<char>, i: int) -> int {
    if i + 1 <= s.len() {
        i + 1
    } else {
        s.len() as int
    }
}

/// A decimal digit.
pub open spec fn is_digit(c: char) -> bool {
    48 <= c as u32 <= 57
}

/// A whitespace character: the Unicode `White_Space` code points.
pub open spec fn is_whitespace(c: char) -> bool {
    let u = c as u32;
    u == 0x9 || u == 0xA || u == 0xB || u == 0xC || u == 0xD || u == 0x20 || u == 0x85 || u == 0xA0
        || u == 0x1680 || (0x2000 <= u && u <= 0x200A) || u == 0x2028 || u == 0x2029 || u == 0x202F
        || u == 0x205F || u == 0x3000
}

/// An ASCII character.
pub open spec fn is_ascii_char(c: char) -> bool {
    c as u32 <= 127
}

/// Decides `is_digit`.
pub fn digit_char(c: char) -> (r: bool)
    ensures
        r == is_digit(c),
{
    let u = c as u32;
    48 <= u && u <= 57
}

/// Decides `is_whitespace`.
pub fn whitespace_char(c: char) -> (r: bool)
    ensures
        r == is_whitespace(c),
{
    let u = c as u32;
    u == 0x9 || u == 0xA || u == 0xB || u == 0xC || u == 0xD || u == 0x20 || u == 0x85 || u == 0xA0
        || u == 0x1680 || (0x2000 <= u && u <= 0x200A) || u == 0x2028 || u == 0x2029 || u == 0x202F
        || u == 0x205F || u == 0x3000
}

/// Decides `is_ascii_char`.
pub fn ascii_char(c: char) -> (r: bool)
    ensures
        r == is_ascii_char(c),
{
    c as u32 <= 127
}

/// Relies on `String::push`: appends one character at the end of the string.
#[verifier::external_body]
pub(crate) fn push_char(s: &mut String, c: char)
    ensures
        final(s)@ == old(s)@.push(c),
{
    s.push(c);
}

} // verus!
