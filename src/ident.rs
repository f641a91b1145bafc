//! Frame identifiers: 128-bit, time-ordered values written as 25 base-36 digits.
use vstd::prelude::*;

verus! {

/// The value of a base-36 digit (`0`-`9`, then `a`-`z` in either case), or
/// `-1` for any other character.
pub open spec fn base36_digit(c: char) -> int {
    if '0' <= c && c <= '9' {
        c as int - '0' as int
    } else if 'a' <= c && c <= 'z' {
        c as int - 'a' as int + 10
    } else if 'A' <= c && c <= 'Z' {
        c as int - 'A' as int + 10
    } else {
        -1
    }
}

/// The number written by the base-36 digits of `s`, most significant first.
pub open spec fn base36_value(s: Seq<char>) -> int
    decreases s.len(),
{
    if s.len() == 0 {
        0
    } else {
        base36_value(s.drop_last()) * 36 + base36_digit(s.last())
    }
}

/// The identifier that the text `s` denotes: exactly 25 base-36 digits whose
/// value fits in 128 bits.
pub open spec fn id_from_text(s: Seq<char>) -> Option<u128> {
    if s.len() == 25 && (forall|i: int| 0 <= i < s.len() ==> #[trigger] base36_digit(s[i]) >= 0)
        && base36_value(s) <= u128::MAX {
        Some(base36_value(s) as u128)
    } else {
        None
    }
}

/// Relies on scru128's `Id::try_from_str`: it accepts exactly 25 base-36
/// digits of either case and fails when their value overflows 128 bits.
#[verifier::external_body]
pub(crate) fn parse_id(s: &str) -> (r: Option<u128>)
    ensures
        r == id_from_text(s@),
{
    match scru128::Id::try_from_str(s) {
        Ok(id) => Some(id.to_u128()),
        Err(_) => None,
    }
}

/// Relies on scru128's global generator `scru128::new`. The value depends on
/// the clock and on chance, so nothing is promised of it.
#[verifier::external_body]
pub(crate) fn fresh_id() -> (r: u128) {
    scru128::new().to_u128()
}

} // verus!
