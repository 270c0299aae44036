//! Decimal rendering of integers, verified against a specification of the
//! decimal form, and the trusted declarations for the string operations the
//! display helpers use.
use vstd::prelude::*;

verus! {

/// The decimal digit character for `d`.
pub open spec fn digit_char(d: int) -> char {
    if d == 0 {
        '0'
    } else if d == 1 {
        '1'
    } else if d == 2 {
        '2'
    } else if d == 3 {
        '3'
    } else if d == 4 {
        '4'
    } else if d == 5 {
        '5'
    } else if d == 6 {
        '6'
    } else if d == 7 {
        '7'
    } else if d == 8 {
        '8'
    } else {
        '9'
    }
}

/// The decimal digits of a positive integer, most significant first; empty
/// for zero and below.
pub open spec fn dec_digits(v: int) -> Seq<char>
    decreases v,
{
    if v <= 0 {
        Seq::empty()
    } else {
        dec_digits(v / 10) + seq![digit_char(v % 10)]
    }
}

/// The decimal rendering of an integer: `0` as "0", a negative value with a
/// leading minus sign.
pub open spec fn dec_rep(v: int) -> Seq<char> {
    if v == 0 {
        seq!['0']
    } else if v < 0 {
        seq!['-'] + dec_digits(-v)
    } else {
        dec_digits(v)
    }
}

/// The digit character of `d`, as the specification renders it.
fn digit_exec(d: u64) -> (c: char)
    requires
        d < 10,
    ensures
        c == digit_char(d as int),
{
    if d == 0 {
        '0'
    } else if d == 1 {
        '1'
    } else if d == 2 {
        '2'
    } else if d == 3 {
        '3'
    } else if d == 4 {
        '4'
    } else if d == 5 {
        '5'
    } else if d == 6 {
        '6'
    } else if d == 7 {
        '7'
    } else if d == 8 {
        '8'
    } else {
        '9'
    }
}

/// Appends the decimal digits of `m` to `s`, most significant first.
fn push_digits(s: &mut String, m: u64)
    ensures
        final(s)@ == old(s)@ + dec_digits(m as int),
    decreases m,
{
    if m == 0 {
        proof {
            assert(s@ =~= s@ + dec_digits(0));
        }
        return ;
    }
    push_digits(s, m / 10);
    let c = digit_exec(m % 10);
    s.push(c);
    proof {
        assert(s@ =~= old(s)@ + dec_digits(m as int));
    }
}

/// Renders an unsigned 64-bit value in decimal.
pub fn fmt_u64(v: u64) -> (r: String)
    ensures
        r@ == dec_rep(v as int),
{
    let mut s = String::new();
    if v == 0 {
        s.push('0');
        proof {
            assert(s@ =~= dec_rep(0));
        }
        return s;
    }
    push_digits(&mut s, v);
    proof {
        assert(s@ =~= dec_rep(v as int));
    }
    s
}

/// Renders an unsigned size in decimal.
pub fn fmt_usize(v: usize) -> (r: String)
    ensures
        r@ == dec_rep(v as int),
{
    fmt_u64(v as u64)
}

/// Renders a signed 64-bit value in decimal, with a minus sign when negative.
pub fn fmt_i64(v: i64) -> (r: String)
    ensures
        r@ == dec_rep(v as int),
{
    let mut s = String::new();
    if v == 0 {
        s.push('0');
        proof {
            assert(s@ =~= dec_rep(0));
        }
        return s;
    }
    if v < 0 {
        s.push('-');
        let m: u64 = (-(v as i128)) as u64;
        push_digits(&mut s, m);
        proof {
            assert(s@ =~= dec_rep(v as int));
        }
    } else {
        push_digits(&mut s, v as u64);
        proof {
            assert(s@ =~= dec_rep(v as int));
        }
    }
    s
}

/// Relies on std's `String::push_str`: appends the given slice to the string.
pub assume_specification[ String::push_str ](s: &mut String, other: &str)
    ensures
        final(s)@ == old(s)@ + other@,
;

/// Relies on std's `String::push`: appends the given character to the string.
pub assume_specification[ String::push ](s: &mut String, ch: char)
    ensures
        final(s)@ == old(s)@.push(ch),
;

} // verus!
