use vstd::prelude::*;

verus! {

/// The float arithmetic operations that the interpreter hands to its host.
#[derive(Clone, Copy, PartialEq, Eq, Structural)]
pub enum FloatOp {
    Add,
    Subtract,
    Multiply,
    Divide,
    Remainder,
}

// Floating-point arithmetic, decimal conversion and formatting of `float` values stay with
// the host program: this library holds a float only as its IEEE-754 bit pattern.
/// The host's binary64 arithmetic, on IEEE-754 bit patterns.
///
/// `parse_decimal` reads text as Rust's `f64` parsing does, rounded to the nearest binary64
/// (`None` when the text is not a float); `apply` computes one operation; `render` gives the
/// shortest text that reads back as the same value, keeping a fractional part (`1.0`, `0.5`,
/// `1e300`); `from_int` gives the binary64 nearest to an integer; `to_int` truncates toward
/// zero, and gives `None` when the value is not finite or its integer part lies outside `int`.
pub trait FloatArith {
    fn parse_decimal(&self, text: &Vec<char>) -> Option<u64>;

    fn apply(&self, op: FloatOp, left: u64, right: u64) -> u64;

    fn render(&self, bits: u64) -> Vec<char>;

    fn from_int(&self, value: i64) -> u64;

    fn to_int(&self, bits: u64) -> Option<i64>;
}

/// Bits of the sign.
pub const SIGN_BIT: u64 = 0x8000_0000_0000_0000;

/// Bits of exponent and fraction.
pub const MAGNITUDE_BITS: u64 = 0x7fff_ffff_ffff_ffff;

/// Bit pattern of `1.0`.
pub const ONE_BITS: u64 = 0x3ff0_0000_0000_0000;

/// Bit pattern of the largest finite magnitude (any larger magnitude is infinite or NaN).
pub const MAX_FINITE_MAGNITUDE: u64 = 0x7fef_ffff_ffff_ffff;

/// Whether a bit pattern is a zero of either sign.
pub open spec fn float_is_zero(bits: u64) -> bool {
    bits & MAGNITUDE_BITS == 0
}

/// Whether a bit pattern is a finite number (neither infinite nor NaN).
pub open spec fn float_is_finite(bits: u64) -> bool {
    bits & MAGNITUDE_BITS <= MAX_FINITE_MAGNITUDE
}

/// An integer that orders finite floats as their values do: for finite non-negative
/// floats the magnitude bits grow with the value, and a negative float mirrors its magnitude.
/// Both zeros get the key 0.
pub open spec fn float_key(bits: u64) -> int {
    if bits & SIGN_BIT == 0 {
        (bits & MAGNITUDE_BITS) as int
    } else {
        -((bits & MAGNITUDE_BITS) as int)
    }
}

/// Whether a float is zero (see `float_is_zero`).
pub fn is_zero(bits: u64) -> (r: bool)
    ensures
        r == float_is_zero(bits),
{
    bits & MAGNITUDE_BITS == 0
}

/// Whether a float is finite (see `float_is_finite`).
pub fn is_finite(bits: u64) -> (r: bool)
    ensures
        r == float_is_finite(bits),
{
    bits & MAGNITUDE_BITS <= MAX_FINITE_MAGNITUDE
}

/// The ordering key of a float (see `float_key`).
pub fn key(bits: u64) -> (r: i128)
    ensures
        r == float_key(bits),
{
    let magnitude = bits & MAGNITUDE_BITS;
    if bits & SIGN_BIT == 0 {
        magnitude as i128
    } else {
        -(magnitude as i128)
    }
}

/// The bit pattern of the negated float: the sign bit flipped, the magnitude kept.
pub open spec fn float_negated(bits: u64) -> u64 {
    bits ^ SIGN_BIT
}

/// Negation of a float (`-x`): flips the sign bit.
pub fn negate(bits: u64) -> (r: u64)
    ensures
        r == float_negated(bits),
{
    bits ^ SIGN_BIT
}

/// Negating a float mirrors its value: the key changes sign, a finite value stays finite,
/// and negating twice gives the value back.
pub proof fn lemma_negate_key(bits: u64)
    ensures
        float_key(float_negated(bits)) == -float_key(bits),
        float_is_finite(float_negated(bits)) == float_is_finite(bits),
        float_is_zero(float_negated(bits)) == float_is_zero(bits),
        float_negated(float_negated(bits)) == bits,
{
    let r = bits ^ 0x8000_0000_0000_0000u64;
    assert(r & 0x7fff_ffff_ffff_ffffu64 == bits & 0x7fff_ffff_ffff_ffffu64) by (bit_vector)
        requires r == bits ^ 0x8000_0000_0000_0000u64;
    assert((r & 0x8000_0000_0000_0000u64 == 0) == (bits & 0x8000_0000_0000_0000u64 != 0)) by (bit_vector)
        requires r == bits ^ 0x8000_0000_0000_0000u64;
    assert(r ^ 0x8000_0000_0000_0000u64 == bits) by (bit_vector)
        requires r == bits ^ 0x8000_0000_0000_0000u64;
}

}
