//! Fixed-point values from IEEE 754 doubles.
//!
//! Hosts and program sources give beats, tempo and velocity as doubles. The
//! crate computes in millionths, so a double is taken by its bit pattern and
//! turned into the nearest whole number of millionths, with integer
//! arithmetic only and without rounding error beyond that one step.

use vstd::arithmetic::power2::pow2;
use vstd::prelude::*;

verus! {

/// Millionths in one unit.
pub const MILLION: u64 = 1_000_000;

/// The exponent field of a double: bits 52 through 62.
pub open spec fn exponent_field(bits: u64) -> u64 {
    (bits >> 52) & 0x7ff
}

/// The fraction field of a double: bits 0 through 51.
pub open spec fn fraction_field(bits: u64) -> u64 {
    bits & 0xf_ffff_ffff_ffff
}

/// Whether the sign bit of a double is set.
pub open spec fn sign_bit(bits: u64) -> bool {
    (bits >> 63) == 1
}

/// Whether a double is a number: neither an infinity nor a NaN.
pub open spec fn is_finite(bits: u64) -> bool {
    exponent_field(bits) != 0x7ff
}

/// The significand of a finite double as a whole number: the fraction, with
/// the implicit leading one unless the double is subnormal.
pub open spec fn significand(bits: u64) -> int {
    if exponent_field(bits) == 0 {
        fraction_field(bits) as int
    } else {
        fraction_field(bits) + 0x10_0000_0000_0000
    }
}

/// The power of two that the significand of a finite double is multiplied
/// by: its magnitude is `significand * 2^binary_exponent`.
pub open spec fn binary_exponent(bits: u64) -> int {
    if exponent_field(bits) == 0 {
        -1074
    } else {
        exponent_field(bits) - 1075
    }
}

/// The magnitude of a finite double in millionths, rounded to the nearest
/// whole number, halves upward.
pub open spec fn millionths_magnitude(bits: u64) -> int {
    let scaled = significand(bits) * MILLION;
    let exponent = binary_exponent(bits);
    if exponent >= 0 {
        scaled * pow2(exponent as nat)
    } else {
        // `scaled / 2^(-exponent - 1)` counts halves; half of that, rounded
        // up, is the nearest whole.
        (scaled / (pow2((-exponent - 1) as nat) as int) + 1) / 2
    }
}

/// A double in millionths: `None` for an infinity or a NaN, else the nearest
/// whole number of millionths, kept within `-i64::MAX ..= i64::MAX`.
pub open spec fn millionths_of(bits: u64) -> Option<i64> {
    if !is_finite(bits) {
        None
    } else {
        let magnitude = millionths_magnitude(bits);
        let limited = if magnitude > i64::MAX {
            i64::MAX as int
        } else {
            magnitude
        };
        Some(
            if sign_bit(bits) {
                (-limited) as i64
            } else {
                limited as i64
            },
        )
    }
}

proof fn lemma_fields(bits: u64)
    ensures
        exponent_field(bits) <= 0x7ff,
        fraction_field(bits) < 0x10_0000_0000_0000,
        (bits >> 63) <= 1,
{
    assert(((bits >> 52) & 0x7ff) <= 0x7ff) by (bit_vector);
    assert((bits & 0xf_ffff_ffff_ffff) < 0x10_0000_0000_0000) by (bit_vector);
    assert((bits >> 63) <= 1) by (bit_vector);
}

proof fn lemma_pow2_73()
    ensures
        pow2(73) == 0x200_0000_0000_0000_0000,
{
    vstd::arithmetic::power2::lemma2_to64();
    vstd::arithmetic::power2::lemma_pow2_adds(64, 9);
}

/// Turns the double with this bit pattern into millionths.
pub fn millionths_from_f64_bits(bits: u64) -> (value: Option<i64>)
    ensures
        value == millionths_of(bits),
{
    proof {
        lemma_fields(bits);
    }
    let exponent: u64 = (bits >> 52) & 0x7ff;
    let fraction: u64 = bits & 0xf_ffff_ffff_ffff;
    let negative: bool = (bits >> 63) == 1;
    if exponent == 0x7ff {
        return None;
    }
    let whole: u64 = if exponent == 0 {
        fraction
    } else {
        fraction + 0x10_0000_0000_0000
    };
    let scaled: u128 = (whole as u128) * (MILLION as u128);
    assert(scaled < 0x200_0000_0000_0000_0000) by (nonlinear_arith)
        requires
            scaled == whole * 1_000_000,
            whole < 0x20_0000_0000_0000,
    ;
    let magnitude: i64 = if exponent >= 1075 {
        proof {
            let power = pow2((exponent - 1075) as nat) as int;
            vstd::arithmetic::power2::lemma_pow2_pos((exponent - 1075) as nat);
            assert(scaled * power >= scaled) by (nonlinear_arith)
                requires
                    power >= 1,
                    scaled >= 0,
            ;
        }
        i64::MAX
    } else {
        let halving: u64 = if exponent == 0 {
            1073
        } else {
            1074 - exponent
        };
        if halving >= 73 {
            proof {
                lemma_pow2_73();
                if halving > 73 {
                    vstd::arithmetic::power2::lemma_pow2_strictly_increases(73, halving as nat);
                }
                vstd::arithmetic::div_mod::lemma_basic_div(
                    scaled as int,
                    pow2(halving as nat) as int,
                );
            }
            0
        } else {
            proof {
                vstd::bits::lemma_u128_shr_is_div(scaled, halving as u128);
            }
            let halves: u128 = scaled >> halving;
            proof {
                vstd::arithmetic::power2::lemma_pow2_pos(halving as nat);
                vstd::arithmetic::div_mod::lemma_div_nonincreasing(
                    scaled as int,
                    pow2(halving as nat) as int,
                );
            }
            let nearest: u128 = (halves + 1) / 2;
            if nearest > i64::MAX as u128 {
                i64::MAX
            } else {
                nearest as i64
            }
        }
    };
    if negative {
        Some(-magnitude)
    } else {
        Some(magnitude)
    }
}

} // verus!
