//! Decimal rendering of numbers, for the match counter and for dates.

use vstd::prelude::*;

use crate::strutil::push_char;

verus! {

/// The digit character for one decimal digit.
pub open spec fn digit_char(d: int) -> char {
    if d == 0 {
        '0'
    } else if d == 1 {
        '1'
    } else if d == 2 {
        '2'
    } else if d == 3 {
        '3'
    } else if d == 4 {
        '4'
    } else if d == 5 {
        '5'
    } else if d == 6 {
        '6'
    } else if d == 7 {
        '7'
    } else if d == 8 {
        '8'
    } else {
        '9'
    }
}

/// The decimal digits of a non-negative number, most significant first.
pub open spec fn dec_digits(n: int) -> Seq<char>
    decreases n,
{
    if n < 10 {
        seq![digit_char(n)]
    } else {
        dec_digits(n / 10).push(digit_char(n % 10))
    }
}

/// A number padded with a leading zero to at least two digits.
pub open spec fn dec_digits_2(n: int) -> Seq<char> {
    if n < 10 {
        seq!['0'] + dec_digits(n)
    } else {
        dec_digits(n)
    }
}

/// The digit character, executably.
fn digit_of(d: u64) -> (c: char)
    requires
        d < 10,
    ensures
        c == digit_char(d as int),
{
    if d == 0 {
        '0'
    } else if d == 1 {
        '1'
    } else if d == 2 {
        '2'
    } else if d == 3 {
        '3'
    } else if d == 4 {
        '4'
    } else if d == 5 {
        '5'
    } else if d == 6 {
        '6'
    } else if d == 7 {
        '7'
    } else if d == 8 {
        '8'
    } else {
        '9'
    }
}

/// Appends the decimal digits of `n` to `out`.
fn push_decimal(n: u64, out: &mut String)
    ensures
        final(out)@ == old(out)@ + dec_digits(n as int),
    decreases n,
{
    if n < 10 {
        push_char(out, digit_of(n));
        proof {
            assert(out@ =~= old(out)@ + dec_digits(n as int));
        }
    } else {
        push_decimal(n / 10, out);
        push_char(out, digit_of(n % 10));
        proof {
            assert(out@ =~= old(out)@ + dec_digits(n as int));
        }
    }
}

/// The decimal rendering of a number.
pub fn u64_string(n: u64) -> (s: String)
    ensures
        s@ == dec_digits(n as int),
{
    let mut s = String::new();
    push_decimal(n, &mut s);
    proof {
        assert(s@ =~= dec_digits(n as int));
    }
    s
}

/// The decimal rendering of a count.
pub fn usize_string(n: usize) -> (s: String)
    ensures
        s@ == dec_digits(n as int),
{
    u64_string(n as u64)
}

/// The decimal rendering of a number, zero-padded to two digits.
pub fn u64_string_2(n: u64) -> (s: String)
    ensures
        s@ == dec_digits_2(n as int),
{
    let mut s = String::new();
    if n < 10 {
        push_char(&mut s, '0');
    }
    push_decimal(n, &mut s);
    proof {
        assert(s@ =~= dec_digits_2(n as int));
    }
    s
}

} // verus!
