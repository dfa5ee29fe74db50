//! Decimal rendering of the integer centiohm multipliers.
//!
//! A series multiplier such as 1.47 is carried as the integer 147 (hundredths);
//! the functions here render such an integer with a fixed number of decimal
//! places, or in the shortest form that drops trailing zero decimals.

use vstd::prelude::*;
use vstd::string::StringExecFns;

verus! {

/// The decimal digit character for `d` (expects `d < 10`).
pub open spec fn digit_char(d: nat) -> char {
    if d == 0 {
        '0'
    } else if d == 1 {
        '1'
    } else if d == 2 {
        '2'
    } else if d == 3 {
        '3'
    } else if d == 4 {
        '4'
    } else if d == 5 {
        '5'
    } else if d == 6 {
        '6'
    } else if d == 7 {
        '7'
    } else if d == 8 {
        '8'
    } else {
        '9'
    }
}

/// The ordinary decimal digit string of `n`, most significant digit first.
pub open spec fn dec_digits(n: nat) -> Seq<char>
    decreases n,
{
    if n < 10 {
        seq![digit_char(n)]
    } else {
        dec_digits(n / 10).push(digit_char(n % 10))
    }
}

/// `c` hundredths rendered with exactly two decimal places, e.g. 147 as "1.47".
pub open spec fn two_dec(c: nat) -> Seq<char> {
    dec_digits(c / 100) + seq!['.', digit_char((c % 100) / 10), digit_char(c % 10)]
}

/// `c` tenths rendered with exactly one decimal place, e.g. 147 as "14.7".
pub open spec fn one_dec(c: nat) -> Seq<char> {
    dec_digits(c / 10) + seq!['.', digit_char(c % 10)]
}

/// `c` hundredths rendered in the shortest form: trailing zero decimals are
/// dropped, e.g. 100 as "1", 150 as "1.5", 147 as "1.47".
pub open spec fn min_dec(c: nat) -> Seq<char> {
    if c % 100 == 0 {
        dec_digits(c / 100)
    } else if c % 10 == 0 {
        dec_digits(c / 100) + seq!['.', digit_char((c % 100) / 10)]
    } else {
        two_dec(c)
    }
}

/// The one-character string for a decimal digit.
pub fn digit_str(d: u64) -> (s: &'static str)
    requires
        d < 10,
    ensures
        s@ == seq![digit_char(d as nat)],
{
    proof {
        reveal_strlit("0");
        reveal_strlit("1");
        reveal_strlit("2");
        reveal_strlit("3");
        reveal_strlit("4");
        reveal_strlit("5");
        reveal_strlit("6");
        reveal_strlit("7");
        reveal_strlit("8");
        reveal_strlit("9");
    }
    let s: &'static str = if d == 0 {
        "0"
    } else if d == 1 {
        "1"
    } else if d == 2 {
        "2"
    } else if d == 3 {
        "3"
    } else if d == 4 {
        "4"
    } else if d == 5 {
        "5"
    } else if d == 6 {
        "6"
    } else if d == 7 {
        "7"
    } else if d == 8 {
        "8"
    } else {
        "9"
    };
    proof {
        assert(s@ =~= seq![digit_char(d as nat)]);
    }
    s
}

/// Renders `n` in ordinary decimal notation.
pub fn fmt_u64(n: u64) -> (s: String)
    ensures
        s@ == dec_digits(n as nat),
    decreases n,
{
    if n < 10 {
        String::from_str(digit_str(n))
    } else {
        let mut s = fmt_u64(n / 10);
        s.append(digit_str(n % 10));
        proof {
            assert(s@ =~= dec_digits(n as nat));
        }
        s
    }
}

/// Renders `c` hundredths with two decimal places.
pub fn fmt_two_dec(c: u64) -> (s: String)
    ensures
        s@ == two_dec(c as nat),
{
    proof {
        reveal_strlit(".");
    }
    let mut s = fmt_u64(c / 100);
    s.append(".");
    s.append(digit_str((c % 100) / 10));
    s.append(digit_str(c % 10));
    proof {
        assert(s@ =~= two_dec(c as nat));
    }
    s
}

/// Renders `c` tenths with one decimal place.
pub fn fmt_one_dec(c: u64) -> (s: String)
    ensures
        s@ == one_dec(c as nat),
{
    proof {
        reveal_strlit(".");
    }
    let mut s = fmt_u64(c / 10);
    s.append(".");
    s.append(digit_str(c % 10));
    proof {
        assert(s@ =~= one_dec(c as nat));
    }
    s
}

/// Renders `c` hundredths in the shortest form without trailing zero decimals.
pub fn fmt_min_dec(c: u64) -> (s: String)
    ensures
        s@ == min_dec(c as nat),
{
    proof {
        reveal_strlit(".");
    }
    if c % 100 == 0 {
        fmt_u64(c / 100)
    } else if c % 10 == 0 {
        let mut s = fmt_u64(c / 100);
        s.append(".");
        s.append(digit_str((c % 100) / 10));
        proof {
            assert(s@ =~= min_dec(c as nat));
        }
        s
    } else {
        fmt_two_dec(c)
    }
}

} // verus!
