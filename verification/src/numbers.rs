//! Decimal numerals: the value of a lexeme read as a non-negative integer,
//! and the decimal text of a machine integer.

use vstd::prelude::*;
use vstd::string::StrSliceExecFns;
use crate::text::{is_digit, push_char};

verus! {

/// The numeric value of a single decimal digit.
pub open spec fn digit_val(c: char) -> int {
    c as u32 - 48
}

/// Every character of `s` is a decimal digit.
pub open spec fn all_digits(s: Seq<char>) -> bool {
    forall|i: int| 0 <= i < s.len() ==> is_digit(s[i])
}

/// The value of a sequence of decimal digits, most significant first.
pub open spec fn digits_val(s: Seq<char>) -> int
    decreases s.len(),
{
    if s.len() == 0 {
        0
    } else {
        digits_val(s.drop_last()) * 10 + digit_val(s.last())
    }
}

/// The value of a lexeme read as a non-negative decimal integer: an optional
/// leading `+`, then at least one digit. `None` when the text has any other
/// shape.
pub open spec fn parse_val(t: Seq<char>) -> Option<int> {
    let digits = if t.len() > 0 && t[0] == '+' {
        t.skip(1)
    } else {
        t
    };
    if digits.len() > 0 && all_digits(digits) {
        Some(digits_val(digits))
    } else {
        None
    }
}

/// The value of a lexeme as a machine integer: as `parse_val`, and the value
/// fits in `usize`.
pub open spec fn parse_usize_val(t: Seq<char>) -> Option<int> {
    match parse_val(t) {
        Some(v) => if v <= usize::MAX {
            Some(v)
        } else {
            None
        },
        None => None,
    }
}

/// The decimal digit character for a value below ten.
pub open spec fn digit_char_of(d: int) -> char {
    if d == 0 {
        '0'
    } else if d == 1 {
        '1'
    } else if d == 2 {
        '2'
    } else if d == 3 {
        '3'
    } else if d == 4 {
        '4'
    } else if d == 5 {
        '5'
    } else if d == 6 {
        '6'
    } else if d == 7 {
        '7'
    } else if d == 8 {
        '8'
    } else {
        '9'
    }
}

/// The decimal text of a non-negative integer, without sign or leading
/// zeroes (a single `0` for zero).
pub open spec fn dec_str(n: int) -> Seq<char>
    decreases n
        when n >= 0
{
    if n < 10 {
        seq![digit_char_of(n)]
    } else {
        dec_str(n / 10).push(digit_char_of(n % 10))
    }
}

/// The value of a digit sequence is non-negative.
pub proof fn lemma_digits_val_nonneg(s: Seq<char>)
    requires
        all_digits(s),
    ensures
        digits_val(s) >= 0,
    decreases s.len(),
{
    if s.len() > 0 {
        lemma_digits_val_nonneg(s.drop_last());
    }
}

/// Reading more digits never shrinks the value.
pub proof fn lemma_digits_val_take_le(s: Seq<char>, k: int)
    requires
        all_digits(s),
        0 <= k <= s.len(),
    ensures
        digits_val(s.take(k)) <= digits_val(s),
    decreases s.len(),
{
    if k == s.len() {
        assert(s.take(k) =~= s);
    } else {
        assert(s.drop_last().take(k) =~= s.take(k));
        assert(all_digits(s.drop_last()));
        lemma_digits_val_take_le(s.drop_last(), k);
        lemma_digits_val_nonneg(s.drop_last());
        assert(digits_val(s) >= digits_val(s.drop_last()));
    }
}

/// Reads a lexeme as a non-negative machine integer: an optional leading `+`,
/// then at least one decimal digit, with a value that fits in `usize`.
pub fn parse_usize(s: &str) -> (r: Option<usize>)
    ensures
        match r {
            Some(v) => parse_usize_val(s@) == Some(v as int),
            None => parse_usize_val(s@) is None,
        },
{
    let len = s.unicode_len();
    let start: usize = if len > 0 && s.get_char(0) == '+' {
        1
    } else {
        0
    };
    let ghost digits: Seq<char> = if start == 1 {
        s@.skip(1)
    } else {
        s@
    };
    if start >= len {
        assert(digits.len() == 0);
        return None;
    }
    let mut v: usize = 0;
    let mut j: usize = start;
    while j < len
        invariant
            start == 0 || start == 1,
            start <= j <= len,
            len == s@.len(),
            start == 1 ==> s@.len() > 0 && s@[0] == '+' && digits == s@.skip(1),
            start == 0 ==> digits == s@ && (s@.len() == 0 || s@[0] != '+'),
            digits.len() == len - start,
            forall|k: int| 0 <= k < j - start ==> is_digit(digits[k]),
            v == digits_val(digits.take(j - start)),
        decreases len - j,
    {
        let c = s.get_char(j);
        proof {
            if start == 1 {
                assert(digits[j - start] == s@.skip(1)[j - 1]);
            }
        }
        assert(c == digits[j - start]);
        if !crate::text::digit_char(c) {
            assert(!all_digits(digits));
            return None;
        }
        let d = (c as u32 - 48) as usize;
        assert(d == digit_val(c) && d < 10);
        let ghost p = j - start;
        assert(digits.take(p + 1).drop_last() =~= digits.take(p));
        assert(digits.take(p + 1).last() == digits[p]);
        assert(digits_val(digits.take(p + 1)) == v * 10 + d);
        if v > (usize::MAX - d) / 10 {
            proof {
                assert(10 * ((usize::MAX - d) / 10) + 10 > usize::MAX - d);
                assert(v * 10 >= ((usize::MAX - d) / 10) * 10 + 10) by (nonlinear_arith)
                    requires
                        v > (usize::MAX - d) / 10,
                ;
                assert(v * 10 + d > usize::MAX);
                if all_digits(digits) {
                    lemma_digits_val_take_le(digits, p + 1);
                }
            }
            return None;
        }
        proof {
            assert(10 * ((usize::MAX - d) / 10) <= usize::MAX - d);
            assert(v * 10 <= ((usize::MAX - d) / 10) * 10) by (nonlinear_arith)
                requires
                    v <= (usize::MAX - d) / 10,
            ;
        }
        v = v * 10 + d;
        j = j + 1;
    }
    assert(digits.take(j - start) =~= digits);
    assert(all_digits(digits));
    Some(v)
}

/// The decimal digit character for a machine digit.
pub fn to_digit_char(d: usize) -> (c: char)
    requires
        d < 10,
    ensures
        c == digit_char_of(d as int),
{
    if d == 0 {
        '0'
    } else if d == 1 {
        '1'
    } else if d == 2 {
        '2'
    } else if d == 3 {
        '3'
    } else if d == 4 {
        '4'
    } else if d == 5 {
        '5'
    } else if d == 6 {
        '6'
    } else if d == 7 {
        '7'
    } else if d == 8 {
        '8'
    } else {
        '9'
    }
}

/// The decimal text of a machine integer.
pub fn usize_to_string(n: usize) -> (r: String)
    ensures
        r@ == dec_str(n as int),
    decreases n,
{
    if n < 10 {
        let mut s = String::new();
        push_char(&mut s, to_digit_char(n));
        proof {
            assert(s@ =~= dec_str(n as int));
        }
        s
    } else {
        let mut s = usize_to_string(n / 10);
        push_char(&mut s, to_digit_char(n % 10));
        s
    }
}

} // verus!
