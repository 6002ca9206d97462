//! Single-precision scalars, held by their IEEE 754 binary32 bit patterns.
//!
//! A pattern is a `u32`: one sign bit, eight exponent bits, twenty-three
//! fraction bits. Ordering against zero is decided on the pattern alone, so
//! the rectifier and its derivative are plain integer functions.

use vstd::prelude::*;

verus! {

/// Bit pattern of `+0.0`.
pub const ZERO: u32 = 0;

/// Bit pattern of `1.0`.
pub const ONE: u32 = 0x3F80_0000;

/// Bit pattern of positive infinity, the largest pattern that orders above zero.
pub const INFINITY: u32 = 0x7F80_0000;

/// The sign bit alone, which is also the bit pattern of `-0.0`.
pub const SIGN: u32 = 0x8000_0000;

/// Bit pattern of negative infinity.
pub const NEG_INFINITY: u32 = 0xFF80_0000;

/// Bit pattern of the quiet NaN with a clear sign and an empty payload.
pub const NAN: u32 = 0x7FC0_0000;

/// Whether the value encoded by `z` compares strictly greater than zero.
///
/// That holds exactly when the sign bit is clear and the pattern is neither
/// `+0.0` nor a NaN: the positive subnormals, the positive normals and
/// positive infinity.
pub open spec fn is_positive(z: u32) -> bool {
    ZERO < z <= INFINITY
}

/// The rectifier on bit patterns: `z` itself where it is positive, `+0.0`
/// everywhere else (negative values, both zeros and every NaN).
pub open spec fn relu_of(z: u32) -> u32 {
    if is_positive(z) {
        z
    } else {
        ZERO
    }
}

/// The rectifier's derivative on bit patterns: `1.0` where `z` is positive,
/// `+0.0` everywhere else. At zero itself the derivative is taken to be zero.
pub open spec fn relu_prime_of(z: u32) -> u32 {
    if is_positive(z) {
        ONE
    } else {
        ZERO
    }
}

/// Whether `x` encodes a NaN: an exponent of all ones with a fraction that is
/// not zero, under either sign.
pub open spec fn is_nan(x: u32) -> bool {
    INFINITY < x < SIGN || NEG_INFINITY < x
}

/// Whether `x` encodes positive or negative infinity.
pub open spec fn is_infinite(x: u32) -> bool {
    x == INFINITY || x == NEG_INFINITY
}

/// The zero that has the sign of `x`.
pub open spec fn signed_zero(x: u32) -> u32 {
    if x >= SIGN {
        SIGN
    } else {
        ZERO
    }
}

/// The product of an upstream gradient `da` with the rectifier's derivative at
/// `z`, as single-precision multiplication gives it.
///
/// The derivative is `1.0` or `+0.0`. Times `1.0` a value stays as it is. Times
/// `+0.0` a finite value becomes the zero of its own sign, and an infinity has
/// no product. Where the product is a NaN (`da` is one, or an infinity met a
/// zero) the result is the quiet NaN `NAN`; the arithmetic itself leaves open
/// which NaN comes out.
pub open spec fn relu_gradient_of(da: u32, z: u32) -> u32 {
    if is_nan(da) {
        NAN
    } else if is_positive(z) {
        da
    } else if is_infinite(da) {
        NAN
    } else {
        signed_zero(da)
    }
}

/// Rectified linear unit of one pre-activation value.
pub fn relu(z: u32) -> (a: u32)
    ensures
        a == relu_of(z),
        is_positive(z) ==> a == z,
        !is_positive(z) ==> a == ZERO,
{
    if z > ZERO && z <= INFINITY {
        z
    } else {
        ZERO
    }
}

/// Derivative of the rectified linear unit at one pre-activation value.
pub fn relu_prime(z: u32) -> (d: u32)
    ensures
        d == relu_prime_of(z),
        is_positive(z) ==> d == ONE,
        !is_positive(z) ==> d == ZERO,
{
    if z > ZERO && z <= INFINITY {
        ONE
    } else {
        ZERO
    }
}

/// The gradient that flows back through the rectifier at one entry: the
/// upstream gradient `da` times the derivative at the pre-activation `z`.
pub fn relu_gradient(da: u32, z: u32) -> (dz: u32)
    ensures
        dz == relu_gradient_of(da, z),
{
    if (da > INFINITY && da < SIGN) || da > NEG_INFINITY {
        NAN
    } else if z > ZERO && z <= INFINITY {
        da
    } else if da == INFINITY || da == NEG_INFINITY {
        NAN
    } else if da >= SIGN {
        SIGN
    } else {
        ZERO
    }
}

/// An upstream gradient of one comes back as the derivative itself.
pub proof fn lemma_gradient_of_one(z: u32)
    ensures
        relu_gradient_of(ONE, z) == relu_prime_of(z),
{
}

/// Where the pre-activation is positive, a gradient that is no NaN comes back
/// unchanged.
pub proof fn lemma_gradient_passes(da: u32, z: u32)
    requires
        is_positive(z),
        !is_nan(da),
    ensures
        relu_gradient_of(da, z) == da,
{
}

} // verus!
