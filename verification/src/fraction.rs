//! The retention fraction and the down-sampling stride derived from it.
//!
//! A fraction is a single-precision number, handled here by its IEEE-754 bit
//! pattern: sign in bit 31, biased exponent in bits 30..23, mantissa in bits
//! 22..0. For positive numbers the order of the bit patterns is the order of
//! the numbers, so the interval `(0, 1]` is the range of patterns from 1 up to
//! that of 1.0.

use vstd::prelude::*;
use vstd::arithmetic::power2::pow2;
use vstd::arithmetic::power2::lemma2_to64;
use vstd::arithmetic::power2::lemma2_to64_rest;
use vstd::arithmetic::power2::lemma_pow2_adds;
use vstd::arithmetic::power2::lemma_pow2_pos;
use crate::error::SpiceError;

verus! {

/// The bit pattern of 1.0.
pub const UNIT_FRACTION: u32 = 0x3F80_0000;

/// The smallest bit pattern of a normal number: 2^23.
pub const HIDDEN_BIT: u32 = 0x80_0000;

/// Whether the number with this bit pattern lies in `(0, 1]`. Zero of either
/// sign, negative numbers, numbers above 1, infinities and NaNs do not.
pub open spec fn fraction_in_range(bits: u32) -> bool {
    0 < bits <= UNIT_FRACTION
}

/// The 24-bit significand `m` of a normal number `m * 2^(e - 150)`.
pub open spec fn significand(bits: u32) -> int {
    HIDDEN_BIT + bits % HIDDEN_BIT
}

/// The biased exponent `e` of a number.
pub open spec fn biased_exponent(bits: u32) -> int {
    bits as int / HIDDEN_BIT as int
}

/// `2^47 / m` rounded to the nearest integer. For `2^23 <= m < 2^24` the
/// quotient is never halfway between two integers, and the result is the
/// 24-bit significand of the single-precision quotient `1 / m`.
pub open spec fn reciprocal_significand(m: int) -> int {
    (0x1_0000_0000_0000 + m) / (2 * m)
}

/// The integer part of the single-precision quotient `1 / f`, for a normal
/// `f` in `(0, 1]` given by its bits. With `f = m * 2^(e - 150)` the rounded
/// quotient is `reciprocal_significand(m) * 2^(103 - e)`.
pub open spec fn reciprocal_floor(bits: u32) -> int {
    let e = biased_exponent(bits);
    let r = reciprocal_significand(significand(bits));
    if e <= 103 {
        r * pow2((103 - e) as nat)
    } else {
        r / (pow2((e - 103) as nat) as int)
    }
}

/// The down-sampling stride of a fraction in `(0, 1]`: the single-precision
/// quotient `1 / f`, truncated to an integer and saturated at `usize::MAX`.
/// The reciprocal of a subnormal number exceeds every `usize`.
pub open spec fn stride_of(bits: u32) -> int {
    if bits < HIDDEN_BIT || reciprocal_floor(bits) > usize::MAX {
        usize::MAX as int
    } else {
        reciprocal_floor(bits)
    }
}

/// `value * 2^shift`.
fn scale_up(value: u128, shift: u32) -> (scaled: u128)
    requires
        value <= 0x100_0000,
        shift <= 41,
    ensures
        scaled == value * pow2(shift as nat),
{
    let mut scaled: u128 = value;
    let mut done: u32 = 0;
    proof {
        lemma2_to64();
        lemma2_to64_rest();
    }
    while done < shift
        invariant
            done <= shift <= 41,
            value <= 0x100_0000,
            scaled == value * pow2(done as nat),
            pow2(done as nat) <= pow2(41),
            pow2(41) == 0x200_0000_0000,
        decreases shift - done,
    {
        proof {
            lemma_pow2_adds(done as nat, 1);
            lemma_pow2_adds((done + 1) as nat, (41 - (done + 1)) as nat);
            lemma_pow2_pos((41 - (done + 1)) as nat);
            lemma_pow2_pos((done + 1) as nat);
            lemma2_to64();
            assert(pow2((done + 1) as nat) == pow2(done as nat) * 2);
            assert(pow2((done + 1) as nat) <= pow2(41)) by (nonlinear_arith)
                requires
                    pow2((done + 1) as nat) * pow2((41 - (done + 1)) as nat) == pow2(41),
                    pow2((41 - (done + 1)) as nat) > 0,
                    pow2((done + 1) as nat) > 0,
            ;
            assert(value * pow2((done + 1) as nat) <= 0x100_0000 * 0x200_0000_0000)
                by (nonlinear_arith)
                requires
                    value <= 0x100_0000,
                    pow2((done + 1) as nat) <= 0x200_0000_0000,
            ;
            assert(value * (pow2(done as nat) * 2) == (value * pow2(done as nat)) * 2)
                by (nonlinear_arith);
        }
        scaled = scaled * 2;
        done = done + 1;
    }
    scaled
}

/// The significand of the reciprocal has 24 bits, or is exactly 2^24.
pub proof fn lemma_reciprocal_significand_bounds(m: int)
    requires
        0x80_0000 <= m < 0x100_0000,
    ensures
        0x80_0000 <= reciprocal_significand(m) <= 0x100_0000,
        m == 0x80_0000 ==> reciprocal_significand(m) == 0x100_0000,
{
    let n = 0x1_0000_0000_0000 + m;
    assert(n / (2 * m) >= 0x80_0000) by (nonlinear_arith)
        requires
            n >= 0x80_0000 * (2 * m),
            m > 0,
    ;
    assert(n / (2 * m) <= 0x100_0000) by (nonlinear_arith)
        requires
            n < 0x100_0001 * (2 * m),
            m > 0,
    ;
    if m == 0x80_0000 {
        assert(n == 0x1_0000_0080_0000 && 2 * m == 0x100_0000);
        assert(0x1_0000_0080_0000int / 0x100_0000int == 0x100_0000int);
    }
}

/// Every fraction in `(0, 1]` has a stride of at least 1 that fits `usize`.
pub proof fn lemma_stride_bounds(bits: u32)
    requires
        fraction_in_range(bits),
    ensures
        1 <= stride_of(bits) <= usize::MAX,
{
    if bits >= HIDDEN_BIT {
        let e = biased_exponent(bits);
        let m = significand(bits);
        let r = reciprocal_significand(m);
        lemma_reciprocal_significand_bounds(m);
        assert(1 <= e <= 127);
        if e <= 103 {
            lemma_pow2_pos((103 - e) as nat);
            assert(r * pow2((103 - e) as nat) >= 1) by (nonlinear_arith)
                requires
                    r >= 1,
                    pow2((103 - e) as nat) >= 1,
            ;
        } else {
            let d = pow2((e - 103) as nat) as int;
            lemma2_to64();
            lemma_pow2_pos((e - 103) as nat);
            if e == 127 {
                assert(bits == UNIT_FRACTION);
                assert(m == 0x80_0000);
                assert(d == 0x100_0000);
            } else {
                lemma_pow2_adds((e - 103) as nat, (126 - e) as nat);
                lemma_pow2_pos((126 - e) as nat);
                assert(d <= 0x80_0000) by (nonlinear_arith)
                    requires
                        d * pow2((126 - e) as nat) == 0x80_0000,
                        pow2((126 - e) as nat) >= 1,
                        d >= 1,
                ;
            }
            assert(r / d >= 1) by (nonlinear_arith)
                requires
                    r >= d,
                    d >= 1,
            ;
        }
    }
}

/// The fraction 1 has stride 1.
pub proof fn lemma_unit_fraction_stride()
    ensures
        fraction_in_range(UNIT_FRACTION),
        stride_of(UNIT_FRACTION) == 1,
{
    lemma_reciprocal_significand_bounds(0x80_0000);
    lemma2_to64();
    assert(biased_exponent(UNIT_FRACTION) == 127);
    assert(significand(UNIT_FRACTION) == 0x80_0000);
    assert(pow2(24) == 0x100_0000);
    assert(reciprocal_floor(UNIT_FRACTION) == 0x100_0000int / 0x100_0000int);
}

/// Computes the down-sampling stride of a retention fraction given by its
/// single-precision bits, or rejects a fraction outside `(0, 1]`.
pub fn steps_to_skip(fraction_bits: u32) -> (stride: Result<usize, SpiceError>)
    ensures
        fraction_in_range(fraction_bits) ==> stride == Ok::<usize, SpiceError>(
            stride_of(fraction_bits) as usize,
        ),
        fraction_in_range(fraction_bits) ==> 1 <= stride_of(fraction_bits) <= usize::MAX,
        !fraction_in_range(fraction_bits) ==> stride == Err::<usize, SpiceError>(
            SpiceError::InvalidFraction,
        ),
{
    if fraction_bits == 0 || fraction_bits > UNIT_FRACTION {
        return Err(SpiceError::InvalidFraction);
    }
    proof {
        lemma_stride_bounds(fraction_bits);
    }
    if fraction_bits < HIDDEN_BIT {
        return Ok(usize::MAX);
    }
    let exponent: u32 = fraction_bits / HIDDEN_BIT;
    let m: u128 = (HIDDEN_BIT + fraction_bits % HIDDEN_BIT) as u128;
    let r: u128 = (0x1_0000_0000_0000u128 + m) / (2 * m);
    proof {
        lemma_reciprocal_significand_bounds(m as int);
        lemma2_to64();
        lemma2_to64_rest();
    }
    if exponent <= 62 {
        proof {
            let k = (103 - exponent) as nat;
            lemma_pow2_adds(41, (k - 41) as nat);
            lemma_pow2_pos((k - 41) as nat);
            assert(r * pow2(k) > usize::MAX) by (nonlinear_arith)
                requires
                    r >= 0x80_0000,
                    pow2(k) == 0x200_0000_0000 * pow2((k - 41) as nat),
                    pow2((k - 41) as nat) >= 1,
                    usize::MAX < 0x1_0000_0000_0000_0000,
            ;
        }
        return Ok(usize::MAX);
    }
    let quotient: u128 = if exponent <= 103 {
        scale_up(r, 103 - exponent)
    } else {
        let divisor = scale_up(1, exponent - 103);
        proof {
            lemma_pow2_pos((exponent - 103) as nat);
        }
        r / divisor
    };
    if quotient > usize::MAX as u128 {
        Ok(usize::MAX)
    } else {
        Ok(quotient as usize)
    }
}

} // verus!
