//! Small verified text utilities shared by the other modules.

use vstd::prelude::*;

verus! {

/// The decimal digits of `n`, most significant first.
pub open spec fn spec_decimal(n: u64) -> Seq<char>
    decreases n,
{
    if n < 10 {
        seq![spec_digit_char((n % 10) as u64)]
    } else {
        spec_decimal(n / 10).push(spec_digit_char((n % 10) as u64))
    }
}

pub open spec fn spec_digit_char(d: u64) -> char {
    if d == 0 {
        '0'
    } else if d == 1 {
        '1'
    } else if d == 2 {
        '2'
    } else if d == 3 {
        '3'
    } else if d == 4 {
        '4'
    } else if d == 5 {
        '5'
    } else if d == 6 {
        '6'
    } else if d == 7 {
        '7'
    } else if d == 8 {
        '8'
    } else {
        '9'
    }
}

fn digit_str(d: u64) -> (r: &'static str)
    requires
        d < 10,
    ensures
        r@ == seq![spec_digit_char(d)],
{
    proof {
        reveal_strlit("0");
        reveal_strlit("1");
        reveal_strlit("2");
        reveal_strlit("3");
        reveal_strlit("4");
        reveal_strlit("5");
        reveal_strlit("6");
        reveal_strlit("7");
        reveal_strlit("8");
        reveal_strlit("9");
        assert("0"@ =~= seq![spec_digit_char(0)]);
        assert("1"@ =~= seq![spec_digit_char(1)]);
        assert("2"@ =~= seq![spec_digit_char(2)]);
        assert("3"@ =~= seq![spec_digit_char(3)]);
        assert("4"@ =~= seq![spec_digit_char(4)]);
        assert("5"@ =~= seq![spec_digit_char(5)]);
        assert("6"@ =~= seq![spec_digit_char(6)]);
        assert("7"@ =~= seq![spec_digit_char(7)]);
        assert("8"@ =~= seq![spec_digit_char(8)]);
        assert("9"@ =~= seq![spec_digit_char(9)]);
    }
    if d == 0 {
        "0"
    } else if d == 1 {
        "1"
    } else if d == 2 {
        "2"
    } else if d == 3 {
        "3"
    } else if d == 4 {
        "4"
    } else if d == 5 {
        "5"
    } else if d == 6 {
        "6"
    } else if d == 7 {
        "7"
    } else if d == 8 {
        "8"
    } else {
        "9"
    }
}

/// Renders `n` in decimal notation.
pub fn decimal_string(n: u64) -> (r: String)
    ensures
        r@ == spec_decimal(n),
    decreases n,
{
    let d = digit_str(n % 10);
    if n < 10 {
        let mut s = String::new();
        s.append(d);
        proof {
            assert(s@ =~= spec_decimal(n));
        }
        s
    } else {
        let mut s = decimal_string(n / 10);
        s.append(d);
        proof {
            assert(s@ =~= spec_decimal(n));
        }
        s
    }
}

/// The decimal digits of a 128-bit `n`, most significant first.
pub open spec fn spec_decimal_u128(n: u128) -> Seq<char>
    decreases n,
{
    if n < 10 {
        seq![spec_digit_char((n % 10) as u64)]
    } else {
        spec_decimal_u128(n / 10).push(spec_digit_char((n % 10) as u64))
    }
}

/// Renders a 128-bit `n` in decimal notation.
pub fn decimal_string_u128(n: u128) -> (r: String)
    ensures
        r@ == spec_decimal_u128(n),
    decreases n,
{
    let d = digit_str((n % 10) as u64);
    if n < 10 {
        let mut s = String::new();
        s.append(d);
        proof {
            assert(s@ =~= spec_decimal_u128(n));
        }
        s
    } else {
        let mut s = decimal_string_u128(n / 10);
        s.append(d);
        proof {
            assert(s@ =~= spec_decimal_u128(n));
        }
        s
    }
}

} // verus!
