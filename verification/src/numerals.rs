//! Base-10 rendering of numeral constants, proved against a digit-by-digit
//! specification.

use vstd::prelude::*;

use crate::lexicon::push_char;

verus! {

/// The digit character for a value below ten.
pub open spec fn digit_char(d: int) -> char {
    if d == 0 {
        '0'
    } else if d == 1 {
        '1'
    } else if d == 2 {
        '2'
    } else if d == 3 {
        '3'
    } else if d == 4 {
        '4'
    } else if d == 5 {
        '5'
    } else if d == 6 {
        '6'
    } else if d == 7 {
        '7'
    } else if d == 8 {
        '8'
    } else {
        '9'
    }
}

/// The base-10 digits of a non-negative number, most significant first.
pub open spec fn nat_digits(n: int) -> Seq<char>
    decreases n,
{
    if n < 10 {
        seq![digit_char(n)]
    } else {
        nat_digits(n / 10).push(digit_char(n % 10))
    }
}

/// The base-10 text of a number: its digits, after a minus sign when
/// negative.
pub open spec fn int_text(n: int) -> Seq<char> {
    if n < 0 {
        seq!['-'] + nat_digits(-n)
    } else {
        nat_digits(n)
    }
}

fn digit_of(d: u64) -> (c: char)
    requires
        d < 10,
    ensures
        c == digit_char(d as int),
{
    if d == 0 {
        '0'
    } else if d == 1 {
        '1'
    } else if d == 2 {
        '2'
    } else if d == 3 {
        '3'
    } else if d == 4 {
        '4'
    } else if d == 5 {
        '5'
    } else if d == 6 {
        '6'
    } else if d == 7 {
        '7'
    } else if d == 8 {
        '8'
    } else {
        '9'
    }
}

fn push_nat_digits(out: &mut String, m: u64)
    ensures
        final(out)@ == old(out)@ + nat_digits(m as int),
    decreases m,
{
    if m < 10 {
        push_char(out, digit_of(m));
        proof {
            assert(final(out)@ =~= old(out)@ + nat_digits(m as int));
        }
    } else {
        push_nat_digits(out, m / 10);
        push_char(out, digit_of(m % 10));
        proof {
            assert(final(out)@ =~= old(out)@ + nat_digits(m as int));
        }
    }
}

/// The base-10 token of a signed numeral.
pub fn numeral_string(n: i64) -> (r: String)
    ensures
        r@ == int_text(n as int),
{
    let mut out = String::new();
    if n < 0 {
        push_char(&mut out, '-');
        let wide: i128 = n as i128;
        let m: u64 = (-wide) as u64;
        push_nat_digits(&mut out, m);
        proof {
            assert(m as int == -(n as int));
            assert(out@ =~= int_text(n as int));
        }
    } else {
        push_nat_digits(&mut out, n as u64);
        proof {
            assert(out@ =~= int_text(n as int));
        }
    }
    out
}

/// The base-10 token of a machine-word numeral.
pub fn isize_numeral_string(n: isize) -> (r: String)
    ensures
        r@ == int_text(n as int),
{
    numeral_string(n as i64)
}

} // verus!
