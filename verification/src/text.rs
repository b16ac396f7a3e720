//! Numbers as text.

use vstd::prelude::*;

verus! {

/// The character of the decimal digit `digit`.
pub open spec fn digit_char(digit: nat) -> char {
    if digit == 0 {
        '0'
    } else if digit == 1 {
        '1'
    } else if digit == 2 {
        '2'
    } else if digit == 3 {
        '3'
    } else if digit == 4 {
        '4'
    } else if digit == 5 {
        '5'
    } else if digit == 6 {
        '6'
    } else if digit == 7 {
        '7'
    } else if digit == 8 {
        '8'
    } else {
        '9'
    }
}

/// The decimal notation of `number`, without leading zeros.
pub open spec fn decimal(number: nat) -> Seq<char>
    decreases number,
{
    if number < 10 {
        seq![digit_char(number)]
    } else {
        decimal(number / 10).push(digit_char(number % 10))
    }
}

/// Writes `number` in decimal notation.
///
/// Trusted: formats the number with `std`'s `Display` for `u64`, which
/// writes an unsigned integer as its decimal digits without sign, padding
/// or leading zeros. The contract states that notation.
#[verifier::external_body]
pub(crate) fn decimal_text(number: u64) -> (text: String)
    ensures
        text@ == decimal(number as nat),
{
    format!("{}", number)
}

} // verus!
