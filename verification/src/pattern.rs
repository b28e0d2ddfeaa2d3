//! Measures as bit patterns: what it means for two of them to be equal.
//!
//! A measure is held as the 32 bits of a binary floating-point value: a sign,
//! eight bits of exponent, and 23 of fraction.

use vstd::prelude::*;

verus! {

/// The pattern is that of a number: its exponent has an unset bit, or its
/// fraction is zero.
pub open spec fn is_number(bits: u32) -> bool {
    bits % 0x8000_0000 <= 0x7f80_0000
}

/// The pattern is that of zero, of either sign.
pub open spec fn is_zero(bits: u32) -> bool {
    bits % 0x8000_0000 == 0
}

/// Two measures are equal as numbers. The two zeros are equal, and what is no
/// number equals nothing.
pub open spec fn same_number(a: u32, b: u32) -> bool {
    is_number(a) && is_number(b) && (a == b || (is_zero(a) && is_zero(b)))
}

/// Whether two measures are equal as numbers.
pub fn equal(a: u32, b: u32) -> (same: bool)
    ensures
        same == same_number(a, b),
{
    a % 0x8000_0000 <= 0x7f80_0000 && b % 0x8000_0000 <= 0x7f80_0000 && (a == b || (a % 0x8000_0000
        == 0 && b % 0x8000_0000 == 0))
}

/// A measure equals itself where it is a number, and only there. Equal measures
/// are equal either way round, and to the same measures.
pub proof fn law_numbers_are_equal(a: u32, b: u32, c: u32)
    ensures
        same_number(a, a) <==> is_number(a),
        same_number(a, b) <==> same_number(b, a),
        same_number(a, b) && same_number(b, c) ==> same_number(a, c),
{
}

/// What is no number has every bit of its exponent set and some bit of its fraction;
/// the two zeros are numbers and equal, and no other two patterns are.
pub proof fn law_patterns_are_told_apart(a: u32, b: u32)
    ensures
        is_number(a) <==> !((a / 0x80_0000) % 0x100 == 0xff && a % 0x80_0000 != 0),
        same_number(0, 0x8000_0000),
        a != b && same_number(a, b) ==> (a == 0 || a == 0x8000_0000) && (b == 0 || b
            == 0x8000_0000),
{
}

} // verus!
