//! Single-precision numbers (IEEE 754 binary32) by their 32 bits.
//!
//! Vectors and scores travel through the library as these bits. The library compares and stores
//! them; it does no arithmetic on them.
use vstd::arithmetic::power2::lemma_pow2_adds;
use vstd::arithmetic::power2::lemma_pow2_pos;
use vstd::arithmetic::power2::lemma_pow2_strictly_increases;
use vstd::arithmetic::power2::pow2;
use vstd::prelude::*;

verus! {

/// The bits of positive zero.
pub const ZERO: u32 = 0;

/// The bits below the sign bit.
pub open spec fn magnitude_bits(bits: u32) -> int {
    if bits >= 0x8000_0000 {
        bits - 0x8000_0000
    } else {
        bits as int
    }
}

/// Whether the bits stand for no number: the exponent is full and the fraction is not zero.
pub open spec fn is_nan(bits: u32) -> bool {
    magnitude_bits(bits) > 0x7f80_0000
}

/// The absolute value, in units of the smallest positive number (2 to the power of -149).
///
/// An infinity counts as the power of two that follows the largest finite number.
pub open spec fn absolute(magnitude: int) -> int {
    let exponent = magnitude / 0x80_0000;
    let fraction = magnitude % 0x80_0000;
    if exponent == 0 {
        fraction
    } else {
        (0x80_0000 + fraction) * pow2((exponent - 1) as nat)
    }
}

/// The number, in units of the smallest positive number.
pub open spec fn value(bits: u32) -> int {
    if bits >= 0x8000_0000 {
        -absolute(magnitude_bits(bits))
    } else {
        absolute(magnitude_bits(bits))
    }
}

/// Whether `a` and `b` are both numbers and `a` is the larger.
pub open spec fn greater(a: u32, b: u32) -> bool {
    &&& !is_nan(a)
    &&& !is_nan(b)
    &&& value(a) > value(b)
}

proof fn lemma_absolute_in_binade(magnitude: int)
    requires
        0x80_0000 <= magnitude,
    ensures
        0x80_0000 * pow2((magnitude / 0x80_0000 - 1) as nat) <= absolute(magnitude),
        absolute(magnitude) < 0x80_0000 * pow2((magnitude / 0x80_0000) as nat),
{
    let power = pow2((magnitude / 0x80_0000 - 1) as nat) as int;
    let fraction = magnitude % 0x80_0000;
    lemma_pow2_adds((magnitude / 0x80_0000 - 1) as nat, 1);
    lemma_pow2_pos((magnitude / 0x80_0000 - 1) as nat);
    vstd::arithmetic::power2::lemma2_to64();
    assert(0x80_0000 * power <= (0x80_0000 + fraction) * power < 0x80_0000 * (power * 2))
        by (nonlinear_arith)
        requires
            0 <= fraction < 0x80_0000,
            power > 0,
    ;
}

/// The absolute value grows with the bits below the sign bit.
proof fn lemma_absolute_increases(low: int, high: int)
    requires
        0 <= low < high,
    ensures
        0 <= absolute(low) < absolute(high),
{
    let low_exponent = low / 0x80_0000;
    let high_exponent = high / 0x80_0000;
    lemma_pow2_pos((high_exponent - 1) as nat);
    if low_exponent == high_exponent {
        let power = pow2((high_exponent - 1) as nat) as int;
        let low_fraction = low % 0x80_0000;
        let high_fraction = high % 0x80_0000;
        if high_exponent > 0 {
            assert(0 <= (0x80_0000 + low_fraction) * power < (0x80_0000 + high_fraction) * power)
                by (nonlinear_arith)
                requires
                    0 <= low_fraction < high_fraction,
                    power > 0,
            ;
        }
    } else {
        lemma_absolute_in_binade(high);
        let high_power = pow2((high_exponent - 1) as nat) as int;
        if low_exponent == 0 {
            assert(0x80_0000 <= 0x80_0000 * high_power);
        } else {
            lemma_absolute_in_binade(low);
            lemma_pow2_pos((low_exponent - 1) as nat);
            if low_exponent < high_exponent - 1 {
                lemma_pow2_strictly_increases(low_exponent as nat, (high_exponent - 1) as nat);
            }
        }
    }
}

/// Of two numbers the larger is told by their bits alone: of positive numbers the one with the
/// larger bits, of negative numbers the one with the smaller bits, and a positive number is larger
/// than a negative one unless both are zero. What is no number is neither larger nor smaller.
pub proof fn numbers_compare_by_their_bits(a: u32, b: u32)
    ensures
        is_nan(a) <==> a as int % 0x8000_0000 > 0x7f80_0000,
        is_nan(a) || is_nan(b) ==> !greater(a, b),
        a < 0x8000_0000 && b < 0x8000_0000 && !is_nan(a) && !is_nan(b) ==> (greater(a, b) <==> a
            > b),
        a >= 0x8000_0000 && b >= 0x8000_0000 && !is_nan(a) && !is_nan(b) ==> (greater(a, b) <==> a
            < b),
        a < 0x8000_0000 && b >= 0x8000_0000 && !is_nan(a) && !is_nan(b) ==> (greater(a, b) <==> !(a
            == 0 && b == 0x8000_0000)),
        a >= 0x8000_0000 && b < 0x8000_0000 ==> !greater(a, b),
{
    let low = magnitude_bits(a);
    let high = magnitude_bits(b);
    assert(absolute(0) == 0);
    if low > 0 {
        lemma_absolute_increases(0, low);
    }
    if high > 0 {
        lemma_absolute_increases(0, high);
    }
    if low < high {
        lemma_absolute_increases(low, high);
    }
    if high < low {
        lemma_absolute_increases(high, low);
    }
}

/// Whether `a` and `b` are both numbers and `a` is the larger.
pub fn is_greater(a: u32, b: u32) -> (larger: bool)
    ensures
        larger == greater(a, b),
{
    let a_negative = a >= 0x8000_0000;
    let b_negative = b >= 0x8000_0000;
    let a_magnitude: u32 = if a_negative { a - 0x8000_0000 } else { a };
    let b_magnitude: u32 = if b_negative { b - 0x8000_0000 } else { b };
    if a_magnitude > 0x7f80_0000 || b_magnitude > 0x7f80_0000 {
        return false;
    }
    proof {
        assert(absolute(0) == 0);
        if a_magnitude > 0 {
            lemma_absolute_increases(0, a_magnitude as int);
        }
        if b_magnitude > 0 {
            lemma_absolute_increases(0, b_magnitude as int);
        }
        if a_magnitude < b_magnitude {
            lemma_absolute_increases(a_magnitude as int, b_magnitude as int);
        }
        if b_magnitude < a_magnitude {
            lemma_absolute_increases(b_magnitude as int, a_magnitude as int);
        }
    }
    if a_negative {
        b_negative && a_magnitude < b_magnitude
    } else if b_negative {
        a_magnitude > 0 || b_magnitude > 0
    } else {
        a_magnitude > b_magnitude
    }
}

} // verus!
