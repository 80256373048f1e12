//! Double-precision operations on bit patterns, verified as integer code:
//! multiplication, narrowing conversions to single and half precision,
//! conversion from an unsigned integer, and ceiling-with-saturating-cast.
//! Each mirrors the corresponding IEEE-754 operation with rounding to
//! nearest, ties to even; NaN results are canonicalized (a NaN operand's
//! payload is not propagated).

use crate::fbits::{
    abs_val, frac_of, is_finite, is_nan, lemma_mag_fields, lemma_mag_split, mag_of, mant_of,
    raw_exp, scale_of, sign_of, INF_BITS, NEG_INF_BITS, POW52, POW63,
};
use crate::round::{
    bit_len, lemma_bit_len_bounds, pow2_u128, round_bits_exec, round_to_bits,
};
use vstd::arithmetic::div_mod::lemma_fundamental_div_mod_converse;
use vstd::arithmetic::mul::{
    lemma_mul_inequality, lemma_mul_strict_inequality, lemma_mul_strictly_positive,
};
use vstd::arithmetic::power2::{
    lemma_pow2_adds, lemma_pow2_pos, lemma_pow2_strictly_increases, lemma2_to64, lemma2_to64_rest,
    pow2,
};
use vstd::prelude::*;

verus! {

/// The canonical quiet NaN this library produces.
pub const CANON_NAN: u64 = 0x7FF8_0000_0000_0000;

/// Bit pattern of `1.0`.
pub const ONE_BITS: u64 = 0x3FF0_0000_0000_0000;

/// Bit pattern of `-1.0`.
pub const NEG_ONE_BITS: u64 = 0xBFF0_0000_0000_0000;

/// The double's significand and its exponent against the fixed `2^-1074`
/// scale, as the rounding core wants them: the value of a finite `b` is
/// exactly `(-1)^sign * mant * 2^e`.
pub fn decompose(b: u64) -> (r: (bool, u64, i32))
    requires
        is_finite(b),
    ensures
        r.0 == sign_of(b),
        r.1 as nat == mant_of(b),
        r.2 as int == scale_of(b) - 1074,
        r.2 as int == raw_exp(b) - 1075 || (raw_exp(b) == 0 && r.2 as int == -1074),
{
    proof {
        lemma_mag_split(b);
        lemma_mag_fields(b);
    }
    let raw: u64 = (b / POW52) % 0x800;
    let frac: u64 = b % POW52;
    let sign: bool = b >= POW63;
    if raw == 0 {
        (sign, frac, -1074)
    } else {
        (sign, frac + POW52, raw as i32 - 1075)
    }
}

/// The significand of a double is below `2^53`, hence below the rounding
/// core's input cap.
pub proof fn lemma_mant_small(b: u64)
    ensures
        mant_of(b) < pow2(53),
        mant_of(b) < pow2(107),
{
    lemma_mag_fields(b);
    lemma2_to64();
    lemma2_to64_rest();
    lemma_pow2_strictly_increases(53, 107);
}

/// IEEE-754 double multiplication of the values encoded by `a` and `b`:
/// the exact product rounded to nearest, ties to even. Any NaN operand,
/// and an infinity times a zero, yield the canonical NaN.
pub open spec fn f64_mul_spec(a: u64, b: u64) -> u64 {
    if is_nan(a) || is_nan(b) {
        CANON_NAN
    } else {
        let s = sign_of(a) != sign_of(b);
        if !is_finite(a) || !is_finite(b) {
            if mag_of(a) == 0 || mag_of(b) == 0 {
                CANON_NAN
            } else if s {
                NEG_INF_BITS
            } else {
                INF_BITS
            }
        } else {
            round_to_bits(
                s,
                mant_of(a) * mant_of(b),
                scale_of(a) + scale_of(b) - 2148,
                53,
                -1074,
                11,
            ) as u64
        }
    }
}

/// Double multiplication on bit patterns.
pub fn f64_mul(a: u64, b: u64) -> (r: u64)
    ensures
        r == f64_mul_spec(a, b),
{
    proof {
        lemma_mag_split(a);
        lemma_mag_split(b);
        lemma_mag_fields(a);
        lemma_mag_fields(b);
    }
    let ra: u64 = (a / POW52) % 0x800;
    let rb: u64 = (b / POW52) % 0x800;
    if (ra == 0x7FF && a % POW52 != 0) || (rb == 0x7FF && b % POW52 != 0) {
        return CANON_NAN;
    }
    let s: bool = (a >= POW63) != (b >= POW63);
    if ra == 0x7FF || rb == 0x7FF {
        if a % POW63 == 0 || b % POW63 == 0 {
            return CANON_NAN;
        }
        if s {
            return NEG_INF_BITS;
        }
        return INF_BITS;
    }
    let (sa, ma, ea) = decompose(a);
    let (sb, mb, eb) = decompose(b);
    proof {
        lemma_mant_small(a);
        lemma_mant_small(b);
        lemma2_to64();
        lemma2_to64_rest();
        assert((ma as nat) * (mb as nat) < pow2(107)) by {
            lemma_mul_strict_inequality(ma as int, pow2(53) as int, mb as int + 1);
            lemma_mul_inequality(mb as int + 1, pow2(53) as int, pow2(53) as int);
            lemma_pow2_adds(53, 53);
            lemma_pow2_strictly_increases(106, 107);
            assert(pow2(53) * (mb as int + 1) == pow2(53) * mb + pow2(53)) by {
                vstd::arithmetic::mul::lemma_mul_is_distributive_add(
                    pow2(53) as int,
                    mb as int,
                    1,
                );
            }
            assert((ma as int) * (mb as int) < pow2(53) * (mb as int + 1)) by {
                if mb == 0 {
                    lemma_pow2_pos(53);
                } else {
                    lemma_mul_strict_inequality(ma as int, pow2(53) as int, mb as int);
                    lemma_mul_inequality(pow2(53) as int * mb as int, pow2(53) as int * (mb as int
                        + 1), 1);
                }
            }
        }
        assert(pow2(107) == pow2(64) * pow2(43)) by {
            lemma_pow2_adds(64, 43);
        }
    }
    let m: u128 = (ma as u128) * (mb as u128);
    let e: i32 = ea + eb;
    round_bits_exec(s, m, e, 53, -1074, 11)
}

/// The double that holds the integer `v` exactly.
pub open spec fn u32_to_f64_spec(v: u32) -> u64 {
    round_to_bits(false, v as nat, 0, 53, -1074, 11) as u64
}

/// Convert an unsigned integer to a double (always exact: 32 bits fit in
/// a 53-bit significand).
pub fn u32_to_f64(v: u32) -> (r: u64)
    ensures
        r == u32_to_f64_spec(v),
{
    proof {
        lemma2_to64();
        lemma2_to64_rest();
        lemma_pow2_strictly_increases(32, 107);
    }
    round_bits_exec(false, v as u128, 0, 53, -1074, 11)
}

/// The double narrowed to single precision (`binary32`), rounding to
/// nearest, ties to even, overflow to infinity. A NaN becomes the
/// canonical single-precision quiet NaN of the same sign.
pub open spec fn f64_to_f32_spec(b: u64) -> u32 {
    if is_nan(b) {
        if sign_of(b) {
            0xFFC0_0000u32
        } else {
            0x7FC0_0000u32
        }
    } else if !is_finite(b) {
        if sign_of(b) {
            0xFF80_0000u32
        } else {
            0x7F80_0000u32
        }
    } else {
        round_to_bits(sign_of(b), mant_of(b), scale_of(b) - 1074, 24, -149, 8) as u32
    }
}

/// Narrow a double to single precision.
pub fn f64_to_f32(b: u64) -> (r: u32)
    ensures
        r == f64_to_f32_spec(b),
{
    proof {
        lemma_mag_split(b);
        lemma_mag_fields(b);
        lemma_mant_small(b);
        lemma2_to64();
        lemma2_to64_rest();
    }
    let raw: u64 = (b / POW52) % 0x800;
    if raw == 0x7FF {
        if b % POW52 != 0 {
            if b >= POW63 {
                return 0xFFC0_0000;
            }
            return 0x7FC0_0000;
        }
        if b >= POW63 {
            return 0xFF80_0000;
        }
        return 0x7F80_0000;
    }
    let (s, m, e) = decompose(b);
    let w = round_bits_exec(s, m as u128, e, 24, -149, 8);
    proof {
        assert(pow2(32) == 0x1_0000_0000) by {
            lemma2_to64_rest();
        }
    }
    w as u32
}

/// The double narrowed to half precision (`binary16`), rounding to
/// nearest, ties to even, overflow to infinity. A NaN becomes the
/// canonical half-precision quiet NaN of the same sign.
pub open spec fn f64_to_f16_spec(b: u64) -> u16 {
    if is_nan(b) {
        if sign_of(b) {
            0xFE00u16
        } else {
            0x7E00u16
        }
    } else if !is_finite(b) {
        if sign_of(b) {
            0xFC00u16
        } else {
            0x7C00u16
        }
    } else {
        round_to_bits(sign_of(b), mant_of(b), scale_of(b) - 1074, 11, -24, 5) as u16
    }
}

/// Narrow a double to half precision.
pub fn f64_to_f16(b: u64) -> (r: u16)
    ensures
        r == f64_to_f16_spec(b),
{
    proof {
        lemma_mag_split(b);
        lemma_mag_fields(b);
        lemma_mant_small(b);
        lemma2_to64();
        lemma2_to64_rest();
    }
    let raw: u64 = (b / POW52) % 0x800;
    if raw == 0x7FF {
        if b % POW52 != 0 {
            if b >= POW63 {
                return 0xFE00;
            }
            return 0x7E00;
        }
        if b >= POW63 {
            return 0xFC00;
        }
        return 0x7C00;
    }
    let (s, m, e) = decompose(b);
    let w = round_bits_exec(s, m as u128, e, 11, -24, 5);
    w as u16
}

/// When the value `(-1)^s * m * 2^e` is representable exactly as a double
/// (its significand fits `p = 53` bits and its scale is not below the
/// subnormals), rounding does not round: the resulting pattern decodes to
/// exactly that value.
#[verifier::rlimit(100)]
pub proof fn lemma_round_exact_f64(s: bool, m: nat, e: int)
    requires
        m < pow2(53),
        -1074 <= e,
        bit_len(m) + e <= 1024,
    ensures
        round_to_bits(s, m, e, 53, -1074, 11) < pow2(64),
        is_finite(round_to_bits(s, m, e, 53, -1074, 11) as u64),
        sign_of(round_to_bits(s, m, e, 53, -1074, 11) as u64) == s,
        abs_val(round_to_bits(s, m, e, 53, -1074, 11) as u64) == m * pow2((e + 1074) as nat),
        bit_len(m) + e <= 53 ==> raw_exp(round_to_bits(s, m, e, 53, -1074, 11) as u64) <= 1075,
{
    lemma2_to64();
    lemma2_to64_rest();
    let sgroup: nat = if s {
        0x800
    } else {
        0
    };
    assert(pow2(63) == 0x800 * pow2(52)) by {
        lemma_pow2_adds(11, 52);
    }
    if m == 0 {
        crate::round::lemma_encode_sig_bound(s, 0, -1074, 53, -1074, 11);
        lemma_pow2_pos(53);
        let r = round_to_bits(s, m, e, 53, -1074, 11) as u64;
        assert(r == if s {
            0x8000_0000_0000_0000u64
        } else {
            0u64
        });
        lemma_mag_fields(r);
        lemma_mag_split(r);
        assert(abs_val(r) == mant_of(r) * pow2(scale_of(r)));
        assert(m * pow2((e + 1074) as nat) == 0);
        lemma_pow2_pos(scale_of(r));
    } else {
        lemma_bit_len_bounds(m);
        let len = bit_len(m) as int;
        assert(len <= 53) by {
            if len >= 54 {
                if (len - 1) as nat > 53 {
                    lemma_pow2_strictly_increases(53, (len - 1) as nat);
                }
                assert(false);
            }
        }
        let t: int = if len + e - 53 >= -1074 {
            len + e - 53
        } else {
            -1074
        };
        assert(t <= e);
        let sh = (e - t) as nat;
        let q = m * pow2(sh);
        lemma_pow2_pos(sh);
        lemma_pow2_pos((e + 1074) as nat);
        // q keeps the significand inside 53 bits: no carry, no rounding.
        assert(q < pow2((len + sh) as nat)) by {
            lemma_mul_strict_inequality(m as int, pow2(len as nat) as int, pow2(sh) as int);
            lemma_pow2_adds(len as nat, sh);
        }
        assert(len + sh <= 53);
        assert(q < pow2(53)) by {
            if len + sh < 53 {
                lemma_pow2_strictly_increases((len + sh) as nat, 53);
            }
        }
        assert(q >= 1) by {
            lemma_mul_strictly_positive(m as int, pow2(sh) as int);
        }
        crate::round::lemma_encode_sig_bound(s, q, t, 53, -1074, 11);
        // The decode of the assembled pattern.
        assert(q * pow2((t + 1074) as nat) == m * pow2((e + 1074) as nat)) by {
            lemma_pow2_adds(sh, (t + 1074) as nat);
            vstd::arithmetic::mul::lemma_mul_is_associative(
                m as int,
                pow2(sh) as int,
                pow2((t + 1074) as nat) as int,
            );
        }
        if q < pow2(52) {
            // Subnormal: then the chosen scale was the floor.
            assert(t == -1074) by {
                if t == len + e - 53 {
                    assert(q >= pow2((len - 1 + sh) as nat)) by {
                        lemma_mul_inequality(
                            pow2((len - 1) as nat) as int,
                            m as int,
                            pow2(sh) as int,
                        );
                        lemma_pow2_adds((len - 1) as nat, sh);
                    }
                    assert(len - 1 + sh == 52);
                    assert(false);
                }
            }
            let r_nat = (if s {
                pow2(63)
            } else {
                0nat
            }) + q;
            assert(round_to_bits(s, m, e, 53, -1074, 11) == r_nat);
            let r = r_nat as u64;
            assert(r as nat == sgroup * pow2(52) + q) by {
                vstd::arithmetic::mul::lemma_mul_is_distributive_add_other_way(
                    pow2(52) as int,
                    sgroup as int,
                    0,
                );
            }
            lemma_fundamental_div_mod_converse(
                r as int,
                pow2(52) as int,
                sgroup as int,
                q as int,
            );
            assert(raw_exp(r) == 0 && sign_of(r) == s && frac_of(r) == q) by {
                assert(r / POW52 == sgroup);
            }
            assert(abs_val(r) == q * pow2(0));
        } else {
            // Normal: the significand's top bit is the implicit one.
            let raw = t + 1075;
            assert(raw >= 1);
            assert(raw <= 2046);
            let r_nat = (if s {
                pow2(63)
            } else {
                0nat
            }) + raw * pow2(52) + (q - pow2(52));
            assert(round_to_bits(s, m, e, 53, -1074, 11) == r_nat) by {
                assert(q != pow2(53));
                assert(raw < pow2(11) - 1);
            }
            let r = r_nat as u64;
            assert(r as nat == (sgroup + raw) * pow2(52) + (q - pow2(52))) by {
                vstd::arithmetic::mul::lemma_mul_is_distributive_add_other_way(
                    pow2(52) as int,
                    sgroup as int,
                    raw,
                );
            }
            lemma_fundamental_div_mod_converse(
                r as int,
                pow2(52) as int,
                sgroup as int + raw,
                q as int - pow2(52) as int,
            );
            assert(raw_exp(r) == raw && sign_of(r) == s && frac_of(r) == q - pow2(52)) by {
                assert(r / POW52 == sgroup + raw);
            }
            assert(mant_of(r) == q);
            assert(scale_of(r) == t + 1074);
            assert(bit_len(m) + e <= 53 ==> raw <= 1075);
        }
    }
}

/// One step of the unit wrap: the double with the same sign and the
/// magnitude reduced by exactly one. Defined for finite patterns whose
/// magnitude lies strictly between 1 and 2^53; in that range the
/// difference is exact.
pub open spec fn step_toward_zero_spec(b: u64) -> u64 {
    round_to_bits(
        sign_of(b),
        (mant_of(b) - pow2((1075 - raw_exp(b)) as nat)) as nat,
        raw_exp(b) - 1075,
        53,
        -1074,
        11,
    ) as u64
}

/// The wrap step is exact: the magnitude goes down by exactly `1.0`
/// (`2^1074` on the scaled-integer model), the sign and the magnitude
/// range are preserved.
pub proof fn lemma_step_toward_zero(b: u64)
    requires
        !is_nan(b),
        abs_val(b) > pow2(1074),
        1023 <= raw_exp(b) <= 1075,
    ensures
        sign_of(step_toward_zero_spec(b)) == sign_of(b),
        !is_nan(step_toward_zero_spec(b)),
        abs_val(step_toward_zero_spec(b)) == abs_val(b) - pow2(1074),
        raw_exp(step_toward_zero_spec(b)) <= 1075,
        mant_of(b) > pow2((1075 - raw_exp(b)) as nat),
        bit_len((mant_of(b) - pow2((1075 - raw_exp(b)) as nat)) as nat) <= 53,
{
    lemma_mag_fields(b);
    lemma2_to64();
    lemma2_to64_rest();
    let raw = raw_exp(b) as int;
    let sh = (1075 - raw) as nat;
    let sc = (raw - 1) as nat;
    assert(sh + sc == 1074);
    lemma_pow2_pos(sh);
    lemma_pow2_pos(sc);
    // 1.0 at b's scale: 2^sh * 2^sc == 2^1074.
    lemma_pow2_adds(sh, sc);
    assert(mant_of(b) * pow2(sc) == abs_val(b));
    assert(mant_of(b) > pow2(sh)) by {
        if mant_of(b) <= pow2(sh) {
            lemma_mul_inequality(mant_of(b) as int, pow2(sh) as int, pow2(sc) as int);
            assert(false);
        }
    }
    let d = (mant_of(b) - pow2(sh)) as nat;
    assert(d < pow2(53)) by {
        lemma_mant_small(b);
    }
    assert(bit_len(d) <= 53) by {
        lemma_bit_len_bounds(d);
        if bit_len(d) >= 54 {
            assert(d >= pow2((bit_len(d) - 1) as nat));
            if (bit_len(d) - 1) as nat > 53 {
                lemma_pow2_strictly_increases(53, (bit_len(d) - 1) as nat);
            }
            assert(false);
        }
    }
    lemma_round_exact_f64(sign_of(b), d, raw - 1075);
    assert(abs_val(step_toward_zero_spec(b)) == d * pow2(sc));
    assert(d * pow2(sc) == mant_of(b) * pow2(sc) - pow2(sh) * pow2(sc)) by {
        vstd::arithmetic::mul::lemma_mul_is_distributive_sub_other_way(
            pow2(sc) as int,
            mant_of(b) as int,
            pow2(sh) as int,
        );
    }
}

/// The wrap step, executably: subtract one from the magnitude at the
/// pattern's own scale and re-encode (always exact).
pub fn step_toward_zero(b: u64) -> (r: u64)
    requires
        !is_nan(b),
        abs_val(b) > pow2(1074),
        1023 <= raw_exp(b) <= 1075,
    ensures
        r == step_toward_zero_spec(b),
{
    proof {
        lemma_mag_split(b);
        lemma_mag_fields(b);
        lemma_mant_small(b);
        lemma2_to64();
        lemma2_to64_rest();
        lemma_step_toward_zero(b);
        lemma_pow2_strictly_increases(53, 107);
    }
    let raw: u64 = (b / POW52) % 0x800;
    let frac: u64 = b % POW52;
    let sign: bool = b >= POW63;
    let m: u64 = if raw == 0 {
        frac
    } else {
        frac + POW52
    };
    let unit: u64 = crate::round::pow2_u64((1075 - raw) as u32);
    let d: u64 = m - unit;
    round_bits_exec(sign, d as u128, raw as i32 - 1075, 53, -1074, 11)
}

/// The ceiling of the positive value `m * 2^e`, as an integer.
pub open spec fn ceil_pos(m: nat, e: int) -> nat {
    if e >= 0 {
        m * pow2(e as nat)
    } else {
        (m + pow2((-e) as nat) - 1) as nat / pow2((-e) as nat)
    }
}

/// The double's ceiling cast to `u32` with saturation, exactly as the
/// `ceil`-then-cast idiom behaves: NaN and everything at or below zero
/// give 0, values whose ceiling exceeds the `u32` range give its maximum.
pub open spec fn ceil_to_u32_sat(b: u64) -> u32 {
    if is_nan(b) {
        0
    } else if sign_of(b) {
        0
    } else if !is_finite(b) {
        0xFFFF_FFFFu32
    } else if ceil_pos(mant_of(b), scale_of(b) - 1074) >= 0x1_0000_0000 {
        0xFFFF_FFFFu32
    } else {
        ceil_pos(mant_of(b), scale_of(b) - 1074) as u32
    }
}

/// Ceiling of a double, saturating-cast to `u32`.
pub fn f64_ceil_to_u32(b: u64) -> (r: u32)
    ensures
        r == ceil_to_u32_sat(b),
{
    proof {
        lemma_mag_split(b);
        lemma_mag_fields(b);
        lemma_mant_small(b);
        lemma2_to64();
        lemma2_to64_rest();
    }
    let raw: u64 = (b / POW52) % 0x800;
    if raw == 0x7FF && b % POW52 != 0 {
        return 0;
    }
    if b >= POW63 {
        return 0;
    }
    if raw == 0x7FF {
        return 0xFFFF_FFFF;
    }
    let (s, m, e) = decompose(b);
    if m == 0 {
        proof {
            if (e as int) < 0 {
                let d = pow2((-(e as int)) as nat);
                lemma_pow2_pos((-(e as int)) as nat);
                lemma_fundamental_div_mod_converse(d as int - 1, d as int, 0, d as int - 1);
            }
        }
        return 0;
    }
    if e >= 0 {
        // A normal double with a non-negative scale is at least 2^52.
        proof {
            assert(raw >= 1075);
            assert(mant_of(b) >= POW52 as nat);
            lemma_pow2_pos(e as nat);
            lemma_mul_inequality(1, pow2(e as nat) as int, m as int);
            assert(m as nat * pow2(e as nat) >= m as nat * 1) by {
                vstd::arithmetic::mul::lemma_mul_left_inequality(
                    m as int,
                    1,
                    pow2(e as nat) as int,
                );
            }
        }
        return 0xFFFF_FFFF;
    }
    let k = (-e) as u32;
    if k >= 100 {
        // The value is far below one: its ceiling is exactly one.
        proof {
            let d = pow2(k as nat);
            lemma_pow2_pos(k as nat);
            assert((m as nat) < d) by {
                lemma_pow2_strictly_increases(53, k as nat);
            }
            lemma_fundamental_div_mod_converse(
                m as int + d as int - 1,
                d as int,
                1,
                m as int - 1,
            );
        }
        return 1;
    }
    let d: u128 = pow2_u128(k);
    proof {
        lemma_pow2_pos(k as nat);
        assert((d as nat) < pow2(100)) by {
            lemma_pow2_strictly_increases(k as nat, 100);
        }
        assert(pow2(100) == pow2(64) * pow2(36)) by {
            lemma_pow2_adds(64, 36);
        }
    }
    let c = (m as u128 + d - 1) / d;
    proof {
        assert(c as nat == ceil_pos(mant_of(b), scale_of(b) - 1074));
        assert(c <= m as u128) by {
            assert((m as int + 1) * (d as int) == m as int * d as int + d as int) by {
                vstd::arithmetic::mul::lemma_mul_is_distributive_add_other_way(
                    d as int,
                    m as int,
                    1,
                );
            }
            assert(m as int * d as int >= m as int * 1) by {
                vstd::arithmetic::mul::lemma_mul_left_inequality(m as int, 1, d as int);
            }
            assert((d as int) * (m as int + 1) == (m as int + 1) * (d as int)) by {
                vstd::arithmetic::mul::lemma_mul_is_commutative(d as int, m as int + 1);
            }
            vstd::arithmetic::div_mod::lemma_multiply_divide_lt(
                m as int + d as int - 1,
                d as int,
                m as int + 1,
            );
        }
    }
    if c >= 0x1_0000_0000 {
        0xFFFF_FFFF
    } else {
        c as u32
    }
}

} // verus!
