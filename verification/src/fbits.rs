//! The value model for IEEE-754 double-precision bit patterns.
//!
//! A scalar is carried as the `u64` bit pattern of a double. Its magnitude
//! is modelled as the exact integer `mant * 2^scale`, which is the absolute
//! value of the double scaled by `2^1074` (the reciprocal of the smallest
//! subnormal). On that integer model the usual IEEE comparisons become plain
//! integer comparisons, and they are implemented here as verified integer
//! code over the patterns — no floating-point instruction is involved.

use vstd::arithmetic::div_mod::lemma_fundamental_div_mod_converse;
use vstd::arithmetic::mul::{
    lemma_mul_inequality, lemma_mul_nonzero, lemma_mul_strict_inequality,
};
use vstd::arithmetic::power2::{
    lemma_pow2_adds, lemma_pow2_pos, lemma_pow2_strictly_increases, lemma2_to64,
    lemma2_to64_rest, pow2,
};
use vstd::prelude::*;

verus! {

/// 2^52, the weight of the lowest raw-exponent bit.
pub const POW52: u64 = 0x10_0000_0000_0000;

/// 2^63, the weight of the sign bit.
pub const POW63: u64 = 0x8000_0000_0000_0000;

/// Bit pattern of positive infinity.
pub const INF_BITS: u64 = 0x7FF0_0000_0000_0000;

/// Bit pattern of negative infinity.
pub const NEG_INF_BITS: u64 = 0xFFF0_0000_0000_0000;

/// Sign of the double encoded by `b`.
pub open spec fn sign_of(b: u64) -> bool {
    b / POW52 / 0x800 == 1
}

/// Raw (biased) exponent field of `b`: 11 bits.
pub open spec fn raw_exp(b: u64) -> u64 {
    (b / POW52) % 0x800
}

/// Fraction field of `b`: the low 52 bits.
pub open spec fn frac_of(b: u64) -> u64 {
    b % POW52
}

/// Magnitude bits of `b`: everything but the sign.
pub open spec fn mag_of(b: u64) -> u64 {
    b % POW63
}

/// `b` encodes a NaN.
pub open spec fn is_nan(b: u64) -> bool {
    raw_exp(b) == 0x7FF && frac_of(b) != 0
}

/// `b` encodes a finite double (normal, subnormal or zero).
pub open spec fn is_finite(b: u64) -> bool {
    raw_exp(b) != 0x7FF
}

/// Integer significand: the fraction with the implicit leading bit of a
/// normal number made explicit.
pub open spec fn mant_of(b: u64) -> nat {
    if raw_exp(b) == 0 {
        frac_of(b) as nat
    } else {
        frac_of(b) as nat + POW52 as nat
    }
}

/// Exponent of the significand relative to the fixed scale `2^-1074`.
/// Infinities take the scale past every finite value, which gives them
/// their correct place in the order below.
pub open spec fn scale_of(b: u64) -> nat {
    if raw_exp(b) == 0 {
        0
    } else {
        (raw_exp(b) - 1) as nat
    }
}

/// Absolute value of the double encoded by `b`, scaled by `2^1074`:
/// an exact natural number.
pub open spec fn abs_val(b: u64) -> nat {
    mant_of(b) * pow2(scale_of(b))
}

/// Signed value of the double encoded by `b`, scaled by `2^1074`.
/// Both zeros map to 0. Meaningless for NaN patterns.
pub open spec fn sval(b: u64) -> int {
    if sign_of(b) {
        -(abs_val(b) as int)
    } else {
        abs_val(b) as int
    }
}

/// The IEEE-754 `<` relation on the doubles encoded by `a` and `b`:
/// false whenever either is NaN, and `-0 < +0` does not hold.
pub open spec fn f64_lt(a: u64, b: u64) -> bool {
    !is_nan(a) && !is_nan(b) && sval(a) < sval(b)
}

/// The IEEE-754 `>` relation on the doubles encoded by `a` and `b`.
pub open spec fn f64_gt(a: u64, b: u64) -> bool {
    f64_lt(b, a)
}

/// The smaller operand by IEEE `<`, the second on ties or NaN — the
/// classic `if a < b { a } else { b }` selection.
pub open spec fn fmin(a: u64, b: u64) -> u64 {
    if f64_lt(a, b) {
        a
    } else {
        b
    }
}

/// The larger operand by IEEE `>`, the second on ties or NaN.
pub open spec fn fmax(a: u64, b: u64) -> u64 {
    if f64_gt(a, b) {
        a
    } else {
        b
    }
}

/// The magnitude bits split into raw exponent and fraction.
pub proof fn lemma_mag_split(b: u64)
    ensures
        mag_of(b) == raw_exp(b) * POW52 + frac_of(b),
        sign_of(b) == (b >= POW63),
{
    assert(b % 0x8000_0000_0000_0000
        == ((b / 0x10_0000_0000_0000) % 0x800) * 0x10_0000_0000_0000 + b % 0x10_0000_0000_0000
        && (b / 0x10_0000_0000_0000 / 0x800 == 1) == (b >= 0x8000_0000_0000_0000)) by (bit_vector);
}

/// Raw exponent and fraction are recovered from the magnitude bits.
pub proof fn lemma_mag_fields(b: u64)
    ensures
        raw_exp(b) == mag_of(b) / POW52,
        frac_of(b) == mag_of(b) % POW52,
        raw_exp(b) < 0x800,
        frac_of(b) < POW52,
{
    assert((b / 0x10_0000_0000_0000) % 0x800 < 0x800 && b % 0x10_0000_0000_0000 < 0x10_0000_0000_0000) by (bit_vector);
    lemma_mag_split(b);
    lemma_fundamental_div_mod_converse(
        mag_of(b) as int,
        POW52 as int,
        raw_exp(b) as int,
        frac_of(b) as int,
    );
}

/// Strict order on magnitude bits is strict order on scaled absolute
/// values. This is the classic fact that non-negative IEEE doubles order
/// like their bit patterns.
proof fn lemma_abs_val_lt(a: u64, b: u64)
    requires
        mag_of(a) < mag_of(b),
    ensures
        abs_val(a) < abs_val(b),
{
    lemma_mag_fields(a);
    lemma_mag_fields(b);
    lemma2_to64();
    lemma2_to64_rest();
    let ea = raw_exp(a);
    let eb = raw_exp(b);
    let p52: nat = POW52 as nat;
    assert(pow2(52) == p52);
    if ea == eb {
        // Same scale: the fraction decides.
        assert(frac_of(a) < frac_of(b));
        assert(mant_of(a) < mant_of(b));
        lemma_pow2_pos(scale_of(a));
        lemma_mul_strict_inequality(
            mant_of(a) as int,
            mant_of(b) as int,
            pow2(scale_of(a)) as int,
        );
    } else {
        assert(ea < eb) by {
            if ea > eb {
                // mag(a) >= ea*2^52 > (eb+1)*2^52 > mag(b), contradiction.
                lemma_mul_inequality(eb as int + 1, ea as int, POW52 as int);
                assert(false);
            }
        }
        if eb == ea + 1 && ea == 0 {
            // Subnormal against the lowest normal binade: both at scale 0.
            assert(scale_of(a) == 0 && scale_of(b) == 0);
            assert(mant_of(a) < p52 && mant_of(b) >= p52);
            lemma_pow2_pos(0);
            assert(pow2(0) == 1);
            assert(abs_val(a) == mant_of(a) && abs_val(b) == mant_of(b));
        } else {
            // Scales differ by at least one: compare across the binade gap.
            let sa = scale_of(a);
            let sb = scale_of(b);
            assert(sa + 1 <= sb);
            // abs(a) < 2^53 * 2^sa = 2^(53+sa)
            assert(mant_of(a) < pow2(53)) by {
                assert(pow2(53) == 2 * p52);
            }
            lemma_pow2_pos(sa);
            lemma_mul_inequality(mant_of(a) as int, pow2(53) as int - 1, pow2(sa) as int);
            lemma_mul_strict_inequality(pow2(53) as int - 1, pow2(53) as int, pow2(sa) as int);
            lemma_pow2_adds(53, sa);
            assert(abs_val(a) < pow2(53 + sa));
            // 2^(53+sa) <= 2^(52+sb) = 2^52 * 2^sb <= abs(b)
            if 53 + sa < 52 + sb {
                lemma_pow2_strictly_increases(53 + sa, 52 + sb);
            }
            lemma_pow2_adds(52, sb);
            assert(mant_of(b) >= p52);
            lemma_mul_inequality(p52 as int, mant_of(b) as int, pow2(sb) as int);
            assert(abs_val(b) >= p52 * pow2(sb));
        }
    }
}

/// Equal magnitude bits mean equal scaled absolute values, and magnitude
/// zero means value zero.
proof fn lemma_abs_val_eq(a: u64, b: u64)
    ensures
        mag_of(a) == mag_of(b) ==> abs_val(a) == abs_val(b),
        (mag_of(a) == 0) == (abs_val(a) == 0),
{
    lemma_mag_fields(a);
    lemma_mag_fields(b);
    lemma2_to64();
    lemma2_to64_rest();
    lemma_pow2_pos(scale_of(a));
    lemma_mul_nonzero(mant_of(a) as int, pow2(scale_of(a)) as int);
    if mag_of(a) == mag_of(b) {
        assert(raw_exp(a) == raw_exp(b) && frac_of(a) == frac_of(b));
    }
    if mag_of(a) == 0 {
        assert(raw_exp(a) == 0 && frac_of(a) == 0);
        assert(abs_val(a) == 0);
    }
    if abs_val(a) == 0 {
        assert(mant_of(a) == 0);
        assert(raw_exp(a) == 0 && frac_of(a) == 0);
    }
}

/// The full correspondence: order of magnitude bits is order of scaled
/// absolute values.
proof fn lemma_mag_order(a: u64, b: u64)
    ensures
        (mag_of(a) < mag_of(b)) == (abs_val(a) < abs_val(b)),
        (mag_of(a) == mag_of(b)) == (abs_val(a) == abs_val(b)),
        (mag_of(a) == 0) == (abs_val(a) == 0),
{
    if mag_of(a) < mag_of(b) {
        lemma_abs_val_lt(a, b);
    } else if mag_of(b) < mag_of(a) {
        lemma_abs_val_lt(b, a);
    }
    lemma_abs_val_eq(a, b);
}

/// IEEE-754 `<` on two double bit patterns, as integer code.
pub fn f64_lt_bits(a: u64, b: u64) -> (r: bool)
    ensures
        r == f64_lt(a, b),
{
    proof {
        lemma_mag_split(a);
        lemma_mag_split(b);
        lemma_mag_fields(a);
        lemma_mag_fields(b);
        lemma_mag_order(a, b);
    }
    let ea: u64 = (a / POW52) % 0x800;
    let eb: u64 = (b / POW52) % 0x800;
    if (ea == 0x7FF && a % POW52 != 0) || (eb == 0x7FF && b % POW52 != 0) {
        return false;
    }
    let ma: u64 = a % POW63;
    let mb: u64 = b % POW63;
    let sa: bool = a >= POW63;
    let sb: bool = b >= POW63;
    if sa {
        if sb {
            mb < ma
        } else {
            !(ma == 0 && mb == 0)
        }
    } else {
        if sb {
            false
        } else {
            ma < mb
        }
    }
}

/// IEEE-754 `>` on two double bit patterns.
pub fn f64_gt_bits(a: u64, b: u64) -> (r: bool)
    ensures
        r == f64_gt(a, b),
{
    f64_lt_bits(b, a)
}

/// `b` encodes a NaN, as integer code.
pub fn is_nan_bits(b: u64) -> (r: bool)
    ensures
        r == is_nan(b),
{
    let e: u64 = (b / POW52) % 0x800;
    e == 0x7FF && b % POW52 != 0
}

/// The componentwise-smaller pattern: `if a < b { a } else { b }`.
pub fn fmin_bits(a: u64, b: u64) -> (r: u64)
    ensures
        r == fmin(a, b),
{
    if f64_lt_bits(a, b) {
        a
    } else {
        b
    }
}

/// The componentwise-larger pattern: `if a > b { a } else { b }`.
pub fn fmax_bits(a: u64, b: u64) -> (r: u64)
    ensures
        r == fmax(a, b),
{
    if f64_gt_bits(a, b) {
        a
    } else {
        b
    }
}

/// The selected minimum is no larger than either operand, when neither is
/// NaN: the two relations that bounds tracking rests on.
pub proof fn lemma_fmin_le(a: u64, b: u64)
    requires
        !is_nan(a),
        !is_nan(b),
    ensures
        !f64_lt(a, fmin(a, b)),
        !f64_lt(b, fmin(a, b)),
        !is_nan(fmin(a, b)),
{
}

/// The selected maximum is no smaller than either operand, when neither is
/// NaN.
pub proof fn lemma_fmax_ge(a: u64, b: u64)
    requires
        !is_nan(a),
        !is_nan(b),
    ensures
        !f64_gt(a, fmax(a, b)),
        !f64_gt(b, fmax(a, b)),
        !is_nan(fmax(a, b)),
{
}

/// Infinities bound every non-NaN pattern, so they are the neutral
/// starting corners for bounds tracking.
pub proof fn lemma_inf_bounds(b: u64)
    requires
        !is_nan(b),
    ensures
        !f64_lt(b, NEG_INF_BITS),
        !f64_gt(b, INF_BITS),
        !is_nan(INF_BITS),
        !is_nan(NEG_INF_BITS),
{
    lemma_mag_order(b, INF_BITS);
    lemma_mag_order(b, NEG_INF_BITS);
    lemma_mag_split(b);
    lemma_mag_fields(b);
    assert(mag_of(INF_BITS) == 0x7FF0_0000_0000_0000u64 && raw_exp(INF_BITS) == 0x7FF
        && frac_of(INF_BITS) == 0 && !sign_of(INF_BITS));
    assert(mag_of(NEG_INF_BITS) == 0x7FF0_0000_0000_0000u64 && raw_exp(NEG_INF_BITS) == 0x7FF
        && frac_of(NEG_INF_BITS) == 0 && sign_of(NEG_INF_BITS));
    assert(mag_of(b) <= mag_of(INF_BITS)) by {
        lemma_mag_split(b);
        if mag_of(b) > 0x7FF0_0000_0000_0000u64 {
            assert(raw_exp(b) == 0x7FF && frac_of(b) != 0) by {
                if raw_exp(b) < 0x7FF {
                    lemma_mul_inequality(raw_exp(b) as int + 1, 0x7FF, POW52 as int);
                    assert(false);
                }
            }
        }
    }
}

} // verus!
