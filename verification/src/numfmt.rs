//! Decimal display of numbers: the mathematical digit sequence of an
//! integer, and an executable renderer proved against it.

use vstd::prelude::*;

verus! {

/// The character for one decimal digit.
pub open spec fn digit_char(d: nat) -> char {
    if d == 0 {
        '0'
    } else if d == 1 {
        '1'
    } else if d == 2 {
        '2'
    } else if d == 3 {
        '3'
    } else if d == 4 {
        '4'
    } else if d == 5 {
        '5'
    } else if d == 6 {
        '6'
    } else if d == 7 {
        '7'
    } else if d == 8 {
        '8'
    } else {
        '9'
    }
}

/// The decimal digits of a non-negative integer, most significant first,
/// without leading zeros (zero itself is "0").
pub open spec fn dec_digits(n: nat) -> Seq<char>
    decreases n,
{
    if n < 10 {
        seq![digit_char(n)]
    } else {
        dec_digits(n / 10).push(digit_char(n % 10))
    }
}

/// The decimal display of an integer: a minus sign for negatives, then
/// the digits.
pub open spec fn num_display(n: int) -> Seq<char> {
    if n < 0 {
        seq!['-'] + dec_digits((-n) as nat)
    } else {
        dec_digits(n as nat)
    }
}

/// Relies on String::push: appends the given character to the end of the
/// string.
#[verifier::external_body]
pub fn push_char(s: &mut String, c: char)
    ensures
        final(s)@ == old(s)@.push(c),
{
    s.push(c)
}

fn digit_to_char(d: u64) -> (c: char)
    requires
        d < 10,
    ensures
        c == digit_char(d as nat),
{
    if d == 0 {
        '0'
    } else if d == 1 {
        '1'
    } else if d == 2 {
        '2'
    } else if d == 3 {
        '3'
    } else if d == 4 {
        '4'
    } else if d == 5 {
        '5'
    } else if d == 6 {
        '6'
    } else if d == 7 {
        '7'
    } else if d == 8 {
        '8'
    } else {
        '9'
    }
}

fn push_dec(s: &mut String, m: u64)
    ensures
        final(s)@ == old(s)@ + dec_digits(m as nat),
    decreases m,
{
    if m < 10 {
        push_char(s, digit_to_char(m));
        proof {
            assert(s@ =~= old(s)@ + dec_digits(m as nat));
        }
    } else {
        push_dec(s, m / 10);
        push_char(s, digit_to_char(m % 10));
        proof {
            assert(s@ =~= old(s)@ + dec_digits(m as nat));
        }
    }
}

/// The decimal display of a signed 64-bit number.
pub fn i64_to_string(n: i64) -> (s: String)
    ensures
        s@ == num_display(n as int),
{
    let mut s = String::new();
    if n >= 0 {
        push_dec(&mut s, n as u64);
        proof {
            assert(s@ =~= num_display(n as int));
        }
    } else {
        push_char(&mut s, '-');
        let wide: i128 = n as i128;
        let m: u64 = (-wide) as u64;
        push_dec(&mut s, m);
        proof {
            assert(s@ =~= num_display(n as int));
        }
    }
    s
}

} // verus!
