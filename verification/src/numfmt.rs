//! Decimal rendering of integers, verified against a recursive
//! specification of decimal notation.

use vstd::prelude::*;
use vstd::string::StringExecFns;

verus! {

/// The digit character for a value below ten.
pub open spec fn spec_digit_char(d: int) -> char {
    if d == 0 {
        '0'
    } else if d == 1 {
        '1'
    } else if d == 2 {
        '2'
    } else if d == 3 {
        '3'
    } else if d == 4 {
        '4'
    } else if d == 5 {
        '5'
    } else if d == 6 {
        '6'
    } else if d == 7 {
        '7'
    } else if d == 8 {
        '8'
    } else {
        '9'
    }
}

/// The decimal notation of a natural number, most significant digit first.
pub open spec fn spec_nat_str(n: int) -> Seq<char>
    decreases n,
{
    if n < 10 {
        seq![spec_digit_char(n)]
    } else {
        spec_nat_str(n / 10).push(spec_digit_char(n % 10))
    }
}

/// The decimal notation of an integer: a minus sign for negative values,
/// then the digits of its magnitude.
pub open spec fn spec_int_str(n: int) -> Seq<char> {
    if n < 0 {
        seq!['-'] + spec_nat_str(-n)
    } else {
        spec_nat_str(n)
    }
}

/// Appends one digit character.
fn push_digit(s: &mut String, d: u64)
    requires
        d < 10,
    ensures
        final(s)@ == old(s)@.push(spec_digit_char(d as int)),
{
    proof {
        reveal_strlit("0");
        reveal_strlit("1");
        reveal_strlit("2");
        reveal_strlit("3");
        reveal_strlit("4");
        reveal_strlit("5");
        reveal_strlit("6");
        reveal_strlit("7");
        reveal_strlit("8");
        reveal_strlit("9");
    }
    if d == 0 {
        s.append("0");
    } else if d == 1 {
        s.append("1");
    } else if d == 2 {
        s.append("2");
    } else if d == 3 {
        s.append("3");
    } else if d == 4 {
        s.append("4");
    } else if d == 5 {
        s.append("5");
    } else if d == 6 {
        s.append("6");
    } else if d == 7 {
        s.append("7");
    } else if d == 8 {
        s.append("8");
    } else {
        s.append("9");
    }
    proof {
        assert(s@ =~= old(s)@.push(spec_digit_char(d as int)));
    }
}

/// Appends the decimal notation of a natural number.
pub fn push_nat(s: &mut String, n: u64)
    ensures
        final(s)@ == old(s)@ + spec_nat_str(n as int),
    decreases n,
{
    if n >= 10 {
        push_nat(s, n / 10);
        push_digit(s, n % 10);
        proof {
            assert(s@ =~= old(s)@ + spec_nat_str(n as int));
        }
    } else {
        push_digit(s, n);
        proof {
            assert(s@ =~= old(s)@ + spec_nat_str(n as int));
        }
    }
}

/// The decimal notation of an unsigned machine integer.
pub fn u64_to_string(n: u64) -> (s: String)
    ensures
        s@ == spec_nat_str(n as int),
{
    let mut s = String::new();
    push_nat(&mut s, n);
    proof {
        assert(s@ =~= spec_nat_str(n as int));
    }
    s
}

/// The decimal notation of a size.
pub fn usize_to_string(n: usize) -> (s: String)
    ensures
        s@ == spec_nat_str(n as int),
{
    u64_to_string(n as u64)
}

/// The decimal notation of a signed machine integer.
pub fn i64_to_string(n: i64) -> (s: String)
    ensures
        s@ == spec_int_str(n as int),
{
    if n >= 0 {
        u64_to_string(n as u64)
    } else {
        proof {
            reveal_strlit("-");
        }
        let mut s = String::from_str("-");
        let magnitude: u64 = ((-(n + 1)) as u64) + 1;
        assert(magnitude as int == -(n as int));
        push_nat(&mut s, magnitude);
        proof {
            assert(s@ =~= spec_int_str(n as int));
        }
        s
    }
}

} // verus!
