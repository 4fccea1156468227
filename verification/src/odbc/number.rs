//! Reading a binary64 bit pattern as a number, with integers only.
//!
//! A field's text is read as a decimal floating-point literal by the caller,
//! who hands over the resulting IEEE-754 binary64 bit pattern. Whether that
//! number is whole, and which integer it then is, is decided here.

use vstd::prelude::*;
use vstd::arithmetic::power2::*;
use vstd::bits::*;

verus! {

/// The sign bit: set for negative numbers and for negative zero.
pub open spec fn sign_bit(bits: u64) -> bool {
    bits >= 0x8000_0000_0000_0000
}

/// The eleven exponent bits.
pub open spec fn exponent_field(bits: u64) -> int {
    (bits as int / 0x10_0000_0000_0000) % 2048
}

/// The fifty-two fraction bits.
pub open spec fn fraction_field(bits: u64) -> int {
    bits as int % 0x10_0000_0000_0000
}

/// Neither an infinity nor a NaN.
pub open spec fn is_finite(bits: u64) -> bool {
    exponent_field(bits) != 2047
}

/// The integer whose product with two to the `scale` is the number's
/// magnitude.
pub open spec fn significand(bits: u64) -> int {
    if exponent_field(bits) == 0 {
        fraction_field(bits)
    } else {
        fraction_field(bits) + 0x10_0000_0000_0000
    }
}

/// The power of two by which the significand is scaled.
pub open spec fn scale(bits: u64) -> int {
    if exponent_field(bits) == 0 {
        -1074
    } else {
        exponent_field(bits) - 1075
    }
}

/// The number is finite and has no fractional part.
pub open spec fn is_whole(bits: u64) -> bool {
    is_finite(bits) && (scale(bits) >= 0 || significand(bits) % (pow2((-scale(bits)) as nat) as int)
        == 0)
}

/// The magnitude of a whole number.
pub open spec fn magnitude(bits: u64) -> int {
    if scale(bits) >= 0 {
        significand(bits) * pow2(scale(bits) as nat)
    } else {
        significand(bits) / (pow2((-scale(bits)) as nat) as int)
    }
}

/// The value of a whole number.
pub open spec fn whole_value(bits: u64) -> int {
    if sign_bit(bits) {
        -magnitude(bits)
    } else {
        magnitude(bits)
    }
}

/// The nearest value that a signed 64-bit integer can hold.
pub open spec fn saturated(v: int) -> i64 {
    if v > i64::MAX {
        i64::MAX
    } else if v < i64::MIN {
        i64::MIN
    } else {
        v as i64
    }
}

/// The signed integer that a whole number is coerced to.
pub open spec fn integer_of(bits: u64) -> i64 {
    saturated(whole_value(bits))
}

/// What `whole_number` returns.
pub open spec fn whole_number_spec(bits: u64) -> Option<i64> {
    if is_whole(bits) {
        Some(integer_of(bits))
    } else {
        None
    }
}

proof fn lemma_fields(bits: u64)
    ensures
        ((bits >> 63) == 1) == sign_bit(bits),
        ((bits >> 52) & 0x7ff) == exponent_field(bits),
        (bits & 0xf_ffff_ffff_ffff) == fraction_field(bits),
        0 <= exponent_field(bits) < 2048,
        0 <= fraction_field(bits) < 0x10_0000_0000_0000,
{
    assert(((bits >> 63) == 1) == (bits >= 0x8000_0000_0000_0000)) by (bit_vector);
    assert(((bits >> 52) & 0x7ff) == (bits / 0x10_0000_0000_0000) % 2048) by (bit_vector);
    assert((bits & 0xf_ffff_ffff_ffff) == bits % 0x10_0000_0000_0000) by (bit_vector);
}

/// Reads the bit pattern: the integer it is coerced to when the number is
/// whole, and nothing when it has a fractional part or is not finite.
pub fn whole_number(bits: u64) -> (r: Option<i64>)
    ensures
        r == whole_number_spec(bits),
{
    let negative = (bits >> 63) == 1;
    let exponent: u64 = (bits >> 52) & 0x7ff;
    let fraction: u64 = bits & 0xf_ffff_ffff_ffff;
    proof {
        lemma_fields(bits);
        lemma2_to64();
        lemma2_to64_rest();
    }
    if exponent == 0x7ff {
        return None;
    }
    if exponent == 0 {
        proof {
            lemma_pow2_strictly_increases(52, 1074);
            if fraction != 0 {
                vstd::arithmetic::div_mod::lemma_small_mod(fraction as nat, pow2(1074));
            }
            vstd::arithmetic::div_mod::lemma_basic_div(fraction as int, pow2(1074) as int);
        }
        if fraction == 0 {
            return Some(0);
        } else {
            return None;
        }
    }
    let sig: u64 = fraction | 0x10_0000_0000_0000;
    assert(sig == fraction + 0x10_0000_0000_0000) by (bit_vector)
        requires
            sig == fraction | 0x10_0000_0000_0000,
            fraction < 0x10_0000_0000_0000,
    ;
    if exponent >= 1075 {
        let shift: u64 = exponent - 1075;
        if shift >= 11 {
            proof {
                if shift > 11 {
                    lemma_pow2_strictly_increases(11, shift as nat);
                }
                assert(sig * pow2(shift as nat) >= 0x8000_0000_0000_0000) by (nonlinear_arith)
                    requires
                        sig >= 0x10_0000_0000_0000,
                        pow2(shift as nat) >= 2048,
                ;
            }
            if negative {
                Some(i64::MIN)
            } else {
                Some(i64::MAX)
            }
        } else {
            proof {
                if shift < 10 {
                    lemma_pow2_strictly_increases(shift as nat, 10);
                }
                lemma_pow2_pos(shift as nat);
                assert(sig * pow2(shift as nat) < 0x8000_0000_0000_0000) by (nonlinear_arith)
                    requires
                        sig < 0x20_0000_0000_0000,
                        0 < pow2(shift as nat) <= 1024,
                ;
                lemma_u64_shl_is_mul(sig, shift);
            }
            let mag: u64 = sig << shift;
            if negative {
                Some(-(mag as i64))
            } else {
                Some(mag as i64)
            }
        }
    } else {
        let shift: u64 = 1075 - exponent;
        if shift >= 53 {
            proof {
                if shift > 53 {
                    lemma_pow2_strictly_increases(53, shift as nat);
                }
                vstd::arithmetic::div_mod::lemma_small_mod(sig as nat, pow2(shift as nat));
            }
            None
        } else {
            proof {
                lemma_u64_shl_is_mul(1, shift);
                lemma_pow2_strictly_increases(shift as nat, 53);
                lemma_pow2_pos(shift as nat);
                lemma_u64_low_bits_mask_is_mod(sig, shift as nat);
                lemma_u64_shr_is_div(sig, shift);
            }
            let mask: u64 = (1u64 << shift) - 1;
            assert(mask == low_bits_mask(shift as nat));
            if sig & mask != 0 {
                None
            } else {
                let mag: u64 = sig >> shift;
                proof {
                    vstd::arithmetic::div_mod::lemma_div_is_ordered_by_denominator(
                        sig as int,
                        1,
                        pow2(shift as nat) as int,
                    );
                    vstd::arithmetic::div_mod::lemma_div_basics_2(sig as int);
                }
                if negative {
                    Some(-(mag as i64))
                } else {
                    Some(mag as i64)
                }
            }
        }
    }
}

} // verus!
