//! Decimal rendering of integers, used by the human-readable
//! descriptions that the identifier, error and statistics types offer.

use vstd::prelude::*;
use vstd::string::StringExecFns;

verus! {

/// The character for a single decimal digit `d` (0 through 9).
pub open spec fn digit_char(d: int) -> char {
    if d == 0 {
        '0'
    } else if d == 1 {
        '1'
    } else if d == 2 {
        '2'
    } else if d == 3 {
        '3'
    } else if d == 4 {
        '4'
    } else if d == 5 {
        '5'
    } else if d == 6 {
        '6'
    } else if d == 7 {
        '7'
    } else if d == 8 {
        '8'
    } else {
        '9'
    }
}

/// The decimal rendering of `n`, most significant digit first,
/// without leading zeros (a single `'0'` for zero).
pub open spec fn decimal_str(n: nat) -> Seq<char>
    decreases n,
{
    if n < 10 {
        seq![digit_char(n as int)]
    } else {
        decimal_str(n / 10).push(digit_char((n % 10) as int))
    }
}

/// Relies on std's `format!` macro: renders an unsigned integer in decimal.
#[verifier::external_body]
pub fn decimal_string(n: u64) -> (r: String)
    ensures
        r@ == decimal_str(n as nat),
{
    format!("{}", n)
}

/// Renders `n` with at least two digits, padding a single-digit value
/// with a leading zero (used for the fractional part of a percentage).
pub fn two_digit_string(n: u64) -> (r: String)
    requires
        n < 100,
    ensures
        r@ == if n < 10 {
            seq!['0'] + decimal_str(n as nat)
        } else {
            decimal_str(n as nat)
        },
{
    if n < 10 {
        let mut s = String::from_str("0");
        let d = decimal_string(n);
        s.append(d.as_str());
        proof {
            reveal_strlit("0");
        }
        assert(s@ == seq!['0'] + decimal_str(n as nat));
        s
    } else {
        decimal_string(n)
    }
}

} // verus!
