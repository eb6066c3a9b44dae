//! Decimal text for machine numbers.
//!
//! Register names and diagnostic text render numbers in decimal; the
//! spec functions here say which character sequence a number denotes,
//! and [`int_to_string`] produces exactly that sequence.

use vstd::prelude::*;

verus! {

/// The decimal digit character for `d`.
pub open spec fn digit_char(d: int) -> char {
    if d == 0 {
        '0'
    } else if d == 1 {
        '1'
    } else if d == 2 {
        '2'
    } else if d == 3 {
        '3'
    } else if d == 4 {
        '4'
    } else if d == 5 {
        '5'
    } else if d == 6 {
        '6'
    } else if d == 7 {
        '7'
    } else if d == 8 {
        '8'
    } else {
        '9'
    }
}

/// The decimal text of a natural number, most significant digit first.
pub open spec fn dec_nat(n: nat) -> Seq<char>
    decreases n,
{
    if n < 10 {
        seq![digit_char(n as int)]
    } else {
        dec_nat(n / 10).push(digit_char((n % 10) as int))
    }
}

/// The decimal text of an integer: a minus sign for negative numbers.
pub open spec fn dec_int(n: int) -> Seq<char> {
    if n < 0 {
        seq!['-'] + dec_nat((-n) as nat)
    } else {
        dec_nat(n as nat)
    }
}

/// The one-character string for a single digit.
fn digit_str(d: u64) -> (s: &'static str)
    requires
        d < 10,
    ensures
        s@ =~= seq![digit_char(d as int)],
{
    proof {
        reveal_strlit("0");
        reveal_strlit("1");
        reveal_strlit("2");
        reveal_strlit("3");
        reveal_strlit("4");
        reveal_strlit("5");
        reveal_strlit("6");
        reveal_strlit("7");
        reveal_strlit("8");
        reveal_strlit("9");
    }
    if d == 0 {
        "0"
    } else if d == 1 {
        "1"
    } else if d == 2 {
        "2"
    } else if d == 3 {
        "3"
    } else if d == 4 {
        "4"
    } else if d == 5 {
        "5"
    } else if d == 6 {
        "6"
    } else if d == 7 {
        "7"
    } else if d == 8 {
        "8"
    } else {
        "9"
    }
}

/// The decimal text of a natural number as a string.
pub fn nat_to_string(n: u64) -> (s: String)
    ensures
        s@ == dec_nat(n as nat),
{
    let mut s = String::new();
    let mut m = n;
    while m >= 10
        invariant
            dec_nat(n as nat) =~= dec_nat(m as nat) + s@,
        decreases m,
    {
        let d = m % 10;
        let mut t = String::from_str(digit_str(d));
        t.append(s.as_str());
        proof {
            assert(dec_nat(m as nat) =~= dec_nat((m / 10) as nat).push(digit_char(d as int)));
            assert(dec_nat((m / 10) as nat) + t@ =~= dec_nat(m as nat) + s@);
        }
        s = t;
        m = m / 10;
    }
    let mut t = String::from_str(digit_str(m));
    t.append(s.as_str());
    proof {
        assert(dec_nat(m as nat) =~= seq![digit_char(m as int)]);
        assert(t@ =~= dec_nat(n as nat));
    }
    t
}

/// The decimal text of a machine number as a string.
pub fn int_to_string(n: i64) -> (s: String)
    ensures
        s@ == dec_int(n as int),
{
    if n >= 0 {
        nat_to_string(n as u64)
    } else {
        let m: u64 = ((-(n + 1)) as u64) + 1;
        let mut t = String::from_str("-");
        t.append(nat_to_string(m).as_str());
        proof {
            reveal_strlit("-");
            assert(t@ =~= dec_int(n as int));
        }
        t
    }
}

} // verus!
