//! The vertex packer: reduced-precision attribute encodings and the
//! packed byte layout of one vertex record.
//!
//! Positions become three 32-bit floats; a direction becomes one 32-bit
//! word with 10 bits per axis plus a 2-bit handedness field; texture
//! coordinates become half-precision floats after being pulled back into
//! `[-1, 1]` by repeated whole-unit steps (a deliberate tolerance for
//! malformed exports, not a general wrap). Everything is little-endian.

use crate::fbits::{
    abs_val, f64_gt, f64_gt_bits, f64_lt, f64_lt_bits, is_nan, mant_of, raw_exp, scale_of,
    sign_of, sval,
};
use crate::fops::{
    ceil_to_u32_sat, f64_ceil_to_u32, f64_mul, f64_mul_spec, f64_to_f16, f64_to_f16_spec,
    f64_to_f32, f64_to_f32_spec, lemma_mant_small, lemma_step_toward_zero, step_toward_zero,
    step_toward_zero_spec, u32_to_f64, u32_to_f64_spec, NEG_ONE_BITS, ONE_BITS,
};
use crate::mesh::GPUVertex;
use crate::model::Vec3;
use vstd::arithmetic::mul::lemma_mul_strict_inequality;
use vstd::arithmetic::power2::{
    lemma_pow2_adds, lemma_pow2_pos, lemma_pow2_strictly_increases, lemma2_to64, lemma2_to64_rest,
    pow2,
};
use vstd::prelude::*;

verus! {

/// `1.0` and `-1.0` decoded: what the wrap loop compares against.
pub proof fn lemma_unit_vals()
    ensures
        !is_nan(ONE_BITS),
        !sign_of(ONE_BITS),
        abs_val(ONE_BITS) == pow2(1074),
        sval(ONE_BITS) == pow2(1074),
        !is_nan(NEG_ONE_BITS),
        sign_of(NEG_ONE_BITS),
        abs_val(NEG_ONE_BITS) == pow2(1074),
        sval(NEG_ONE_BITS) == -(pow2(1074) as int),
{
    assert(raw_exp(ONE_BITS) == 1023 && crate::fbits::frac_of(ONE_BITS) == 0 && !sign_of(
        ONE_BITS,
    ));
    assert(raw_exp(NEG_ONE_BITS) == 1023 && crate::fbits::frac_of(NEG_ONE_BITS) == 0 && sign_of(
        NEG_ONE_BITS,
    ));
    lemma2_to64();
    lemma2_to64_rest();
    lemma_pow2_adds(52, 1022);
    assert(mant_of(ONE_BITS) == pow2(52));
    assert(mant_of(NEG_ONE_BITS) == pow2(52));
}

/// A magnitude above `1.0` puts the raw exponent in the normal range at
/// or above the exponent of one.
pub proof fn lemma_big_raw(b: u64)
    requires
        abs_val(b) > pow2(1074),
    ensures
        raw_exp(b) >= 1023,
{
    if raw_exp(b) <= 1022 {
        lemma_mant_small(b);
        lemma_pow2_pos(scale_of(b));
        assert(abs_val(b) < pow2(53) * pow2(scale_of(b))) by {
            lemma_mul_strict_inequality(
                mant_of(b) as int,
                pow2(53) as int,
                pow2(scale_of(b)) as int,
            );
        }
        lemma_pow2_adds(53, scale_of(b));
        assert(53 + scale_of(b) <= 1074);
        assert(pow2((53 + scale_of(b)) as nat) <= pow2(1074)) by {
            if 53 + scale_of(b) < 1074 {
                lemma_pow2_strictly_increases((53 + scale_of(b)) as nat, 1074);
            }
        }
        assert(false);
    }
}

/// The result of running the downward wrap to completion: while the value
/// is above `1.0`, subtract `1.0` (exactly).
pub open spec fn wrap_down(b: u64) -> u64
    decreases abs_val(b),
    via wrap_down_decreases
{
    if !is_nan(b) && f64_gt(b, ONE_BITS) && raw_exp(b) <= 1075 {
        wrap_down(step_toward_zero_spec(b))
    } else {
        b
    }
}

#[via_fn]
proof fn wrap_down_decreases(b: u64) {
    if !is_nan(b) && f64_gt(b, ONE_BITS) && raw_exp(b) <= 1075 {
        lemma_unit_vals();
        lemma_big_raw(b);
        lemma_step_toward_zero(b);
        lemma_pow2_pos(1074);
    }
}

/// The result of running the upward wrap to completion: while the value
/// is below `-1.0`, add `1.0` (exactly; the magnitude shrinks by one).
pub open spec fn wrap_up(b: u64) -> u64
    decreases abs_val(b),
    via wrap_up_decreases
{
    if !is_nan(b) && f64_lt(b, NEG_ONE_BITS) && raw_exp(b) <= 1075 {
        wrap_up(step_toward_zero_spec(b))
    } else {
        b
    }
}

#[via_fn]
proof fn wrap_up_decreases(b: u64) {
    if !is_nan(b) && f64_lt(b, NEG_ONE_BITS) && raw_exp(b) <= 1075 {
        lemma_unit_vals();
        lemma_big_raw(b);
        lemma_step_toward_zero(b);
        lemma_pow2_pos(1074);
    }
}

/// The wrap's whole effect on a texture-coordinate component.
pub open spec fn wrap_unit(b: u64) -> u64 {
    wrap_up(wrap_down(b))
}

/// Law: the downward wrap takes a value above one to somewhere in
/// `(0, 1]`, smaller by a whole number of units, and touches nothing
/// else. On the scaled-integer model a unit is `2^1074`.
pub proof fn lemma_wrap_down_value(b: u64)
    requires
        is_nan(b) || raw_exp(b) <= 1075,
    ensures
        !(!is_nan(b) && f64_gt(b, ONE_BITS)) ==> wrap_down(b) == b,
        !is_nan(b) && f64_gt(b, ONE_BITS) ==> {
            let w = wrap_down(b);
            &&& !is_nan(w)
            &&& 0 < sval(w) <= pow2(1074)
            &&& (sval(b) - sval(w)) % (pow2(1074) as int) == 0
        },
    decreases abs_val(b),
{
    lemma_unit_vals();
    if !is_nan(b) && f64_gt(b, ONE_BITS) {
        lemma_big_raw(b);
        lemma_step_toward_zero(b);
        lemma_pow2_pos(1074);
        let s = step_toward_zero_spec(b);
        lemma_wrap_down_value(s);
        let u = pow2(1074) as int;
        if !is_nan(s) && f64_gt(s, ONE_BITS) {
            let w = wrap_down(b);
            assert(w == wrap_down(s));
            assert((sval(b) - sval(w)) % u == 0) by {
                assert(sval(b) - sval(w) == (sval(s) - sval(w)) + u);
                vstd::arithmetic::div_mod::lemma_mod_adds(sval(s) - sval(w), u, u);
                vstd::arithmetic::div_mod::lemma_mod_self_0(u);
                vstd::arithmetic::div_mod::lemma_small_mod(
                    ((sval(s) - sval(w)) % u) as nat,
                    u as nat,
                );
            }
        } else {
            assert(wrap_down(b) == s);
            assert(0 < sval(s) <= u);
            assert((sval(b) - sval(s)) % u == 0) by {
                vstd::arithmetic::div_mod::lemma_mod_self_0(u);
            }
        }
    }
}

/// Law: the upward wrap mirrors it, taking a value below minus one to
/// `[-1, 0)`, larger by a whole number of units.
pub proof fn lemma_wrap_up_value(b: u64)
    requires
        is_nan(b) || raw_exp(b) <= 1075,
    ensures
        !(!is_nan(b) && f64_lt(b, NEG_ONE_BITS)) ==> wrap_up(b) == b,
        !is_nan(b) && f64_lt(b, NEG_ONE_BITS) ==> {
            let w = wrap_up(b);
            &&& !is_nan(w)
            &&& -(pow2(1074) as int) <= sval(w) < 0
            &&& (sval(w) - sval(b)) % (pow2(1074) as int) == 0
        },
    decreases abs_val(b),
{
    lemma_unit_vals();
    if !is_nan(b) && f64_lt(b, NEG_ONE_BITS) {
        lemma_big_raw(b);
        lemma_step_toward_zero(b);
        lemma_pow2_pos(1074);
        let s = step_toward_zero_spec(b);
        lemma_wrap_up_value(s);
        let u = pow2(1074) as int;
        assert(sign_of(b));
        assert(sval(s) == sval(b) + u);
        if !is_nan(s) && f64_lt(s, NEG_ONE_BITS) {
            let w = wrap_up(b);
            assert(w == wrap_up(s));
            assert((sval(w) - sval(b)) % u == 0) by {
                assert(sval(w) - sval(b) == (sval(w) - sval(s)) + u);
                vstd::arithmetic::div_mod::lemma_mod_adds(sval(w) - sval(s), u, u);
                vstd::arithmetic::div_mod::lemma_mod_self_0(u);
                vstd::arithmetic::div_mod::lemma_small_mod(
                    ((sval(w) - sval(s)) % u) as nat,
                    u as nat,
                );
            }
        } else {
            assert(wrap_up(b) == s);
            assert(-(u as int) <= sval(s) < 0);
            assert((sval(s) - sval(b)) % u == 0) by {
                vstd::arithmetic::div_mod::lemma_mod_self_0(u);
            }
        }
    }
}

/// Law: the whole wrap lands every tolerable input in `[-1, 1]` (on the
/// scaled-integer model, within one unit of zero) and does not touch a
/// value already there.
pub proof fn lemma_wrap_unit_range(b: u64)
    requires
        is_nan(b) || raw_exp(b) <= 1075,
    ensures
        !is_nan(b) ==> -(pow2(1074) as int) <= sval(wrap_unit(b)) <= pow2(1074),
        !is_nan(b) && -(pow2(1074) as int) <= sval(b) <= pow2(1074) ==> wrap_unit(b) == b,
        is_nan(b) ==> wrap_unit(b) == b,
{
    lemma_unit_vals();
    lemma_wrap_down_value(b);
    if !is_nan(b) {
        let w = wrap_down(b);
        if f64_gt(b, ONE_BITS) {
            // Brought into (0, 1]: the upward wrap's guard is false, so it
            // has nothing to do.
            assert(!f64_lt(w, NEG_ONE_BITS));
            assert(wrap_up(w) == w);
        } else {
            assert(w == b);
            lemma_wrap_up_value(b);
        }
    }
}

/// The wrap loop terminates on this input: anything but a finite value
/// at or above `2^53` in magnitude. Past that point subtracting one no
/// longer moves the value (or takes astronomically many steps), so the
/// repeated adjustment would never end.
pub open spec fn wrap_input_ok(b: u64) -> bool {
    is_nan(b) || raw_exp(b) <= 1075
}

/// Whether the wrap terminates on this component, decided on the bits.
pub fn wrap_input_ok_bits(b: u64) -> (r: bool)
    ensures
        r == wrap_input_ok(b),
{
    let raw: u64 = (b / crate::fbits::POW52) % 0x800;
    (raw == 0x7FF && b % crate::fbits::POW52 != 0) || raw <= 1075
}

/// One texture-coordinate component packed to half precision: pulled into
/// `[-1, 1]` by whole-unit steps, then narrowed.
pub open spec fn spec_pack_f16(val: u64) -> u16 {
    f64_to_f16_spec(wrap_unit(val))
}

/// Pack one texture-coordinate component: wrap into `[-1, 1]` by
/// repeated unit steps, then narrow to half precision.
pub fn pack_f16(val: u64) -> (r: u16)
    requires
        wrap_input_ok(val),
    ensures
        r == spec_pack_f16(val),
{
    let mut x = val;
    while f64_gt_bits(x, ONE_BITS)
        invariant
            wrap_input_ok(x),
            wrap_down(x) == wrap_down(val),
        decreases abs_val(x),
    {
        proof {
            lemma_unit_vals();
            lemma_big_raw(x);
            lemma_step_toward_zero(x);
            lemma_pow2_pos(1074);
        }
        x = step_toward_zero(x);
    }
    proof {
        assert(x == wrap_down(val));
    }
    let ghost xd = x;
    while f64_lt_bits(x, NEG_ONE_BITS)
        invariant
            wrap_input_ok(x),
            wrap_up(x) == wrap_up(xd),
        decreases abs_val(x),
    {
        proof {
            lemma_unit_vals();
            lemma_big_raw(x);
            lemma_step_toward_zero(x);
            lemma_pow2_pos(1074);
        }
        x = step_toward_zero(x);
    }
    proof {
        assert(x == wrap_up(wrap_down(val)));
    }
    f64_to_f16(x)
}

/// One axis quantized for the packed 10-bit encoding: the value times
/// `max`, rounded up, clamped to `u32` exactly as the ceil-then-cast
/// idiom does (negative axes and NaN give 0, overflow saturates).
pub open spec fn spec_pack_normalized(val: u64, max: u32) -> u32 {
    ceil_to_u32_sat(f64_mul_spec(val, u32_to_f64_spec(max)))
}

/// Quantize one axis.
pub fn pack_normalized(val: u64, max: u32) -> (r: u32)
    ensures
        r == spec_pack_normalized(val, max),
{
    f64_ceil_to_u32(f64_mul(val, u32_to_f64(max)))
}

/// A direction packed into one 32-bit word: 10 bits per axis at bit
/// offsets 0, 10 and 20, and the sign/handedness `w` (scaled by one) at
/// bit 30. Fields are combined by bitwise or, exactly as the packed
/// format is defined.
pub open spec fn spec_pack_i2_10_10_10(n: Vec3, w: u64) -> u32 {
    spec_pack_normalized(n.x, 511) | (spec_pack_normalized(n.y, 511) << 10u32) | (
    spec_pack_normalized(n.z, 511) << 20u32) | (spec_pack_normalized(w, 1) << 30u32)
}

/// Pack a direction and its handedness into one word.
pub fn pack_i2_10_10_10(normal: &Vec3, w: u64) -> (r: u32)
    ensures
        r == spec_pack_i2_10_10_10(*normal, w),
{
    pack_normalized(normal.x, 511) | (pack_normalized(normal.y, 511) << 10u32) | (pack_normalized(
        normal.z,
        511,
    ) << 20u32) | (pack_normalized(w, 1) << 30u32)
}

/// The little-endian bytes of a 32-bit word.
pub open spec fn le32(w: u32) -> Seq<u8> {
    seq![
        (w % 256) as u8,
        ((w / 256) % 256) as u8,
        ((w / 65536) % 256) as u8,
        ((w / 16777216) % 256) as u8,
    ]
}

/// The little-endian bytes of a 16-bit word.
pub open spec fn le16(w: u16) -> Seq<u8> {
    seq![(w % 256) as u8, ((w / 256) % 256) as u8]
}

/// Append a 32-bit word, little-endian.
pub fn write_u32_le(data: &mut Vec<u8>, w: u32)
    ensures
        final(data)@ == old(data)@ + le32(w),
{
    data.push((w % 256) as u8);
    data.push(((w / 256) % 256) as u8);
    data.push(((w / 65536) % 256) as u8);
    data.push(((w / 16777216) % 256) as u8);
    proof {
        assert(data@ =~= old(data)@ + le32(w));
    }
}

/// Append a 16-bit word, little-endian.
pub fn write_u16_le(data: &mut Vec<u8>, w: u16)
    ensures
        final(data)@ == old(data)@ + le16(w),
{
    data.push((w % 256) as u8);
    data.push(((w / 256) % 256) as u8);
    proof {
        assert(data@ =~= old(data)@ + le16(w));
    }
}

/// The packed record of one vertex: position always, then each attribute
/// the vertex carries, in ascending offset order.
pub open spec fn packed_vertex_bytes(v: GPUVertex) -> Seq<u8> {
    le32(f64_to_f32_spec(v.pos.x)) + le32(f64_to_f32_spec(v.pos.y)) + le32(
        f64_to_f32_spec(v.pos.z),
    ) + (match v.normal {
        Some(n) => le32(spec_pack_i2_10_10_10(n, 0)),
        None => Seq::empty(),
    }) + (match v.tangent {
        Some(t) => le32(spec_pack_i2_10_10_10(t, v.tangent_handedness)),
        None => Seq::empty(),
    }) + (match v.tex {
        Some(t) => le16(spec_pack_f16(t.u)) + le16(spec_pack_f16(t.v)),
        None => Seq::empty(),
    })
}

/// The packed records of a whole vertex table, concatenated in order.
pub open spec fn packed_vertices_bytes(vs: Seq<GPUVertex>) -> Seq<u8>
    decreases vs.len(),
{
    if vs.len() == 0 {
        Seq::empty()
    } else {
        packed_vertices_bytes(vs.drop_last()) + packed_vertex_bytes(vs.last())
    }
}

/// The vertex's texture coordinates are inputs the wrap terminates on.
pub open spec fn vertex_packable(v: GPUVertex) -> bool {
    match v.tex {
        Some(t) => wrap_input_ok(t.u) && wrap_input_ok(t.v),
        None => true,
    }
}

impl GPUVertex {
    /// The vertex's texture coordinates are inputs the wrap terminates
    /// on, decided on the bits.
    pub fn check_packable(&self) -> (r: bool)
        ensures
            r == vertex_packable(*self),
    {
        match self.tex {
            Some(t) => wrap_input_ok_bits(t.u) && wrap_input_ok_bits(t.v),
            None => true,
        }
    }

    /// Serialize this vertex into the packed byte layout, appending to
    /// `data`: position as three 32-bit floats, then the packed normal,
    /// tangent and texture-coordinate words for whichever of those the
    /// vertex carries.
    #[verifier::rlimit(50)]
    pub fn write_to(&self, data: &mut Vec<u8>)
        requires
            vertex_packable(*self),
        ensures
            final(data)@ == old(data)@ + packed_vertex_bytes(*self),
    {
        write_u32_le(data, f64_to_f32(self.pos.x));
        write_u32_le(data, f64_to_f32(self.pos.y));
        write_u32_le(data, f64_to_f32(self.pos.z));

        if let Some(normal) = self.normal {
            write_u32_le(data, pack_i2_10_10_10(&normal, 0));
        }

        if let Some(tangent) = self.tangent {
            write_u32_le(data, pack_i2_10_10_10(&tangent, self.tangent_handedness));
        }

        if let Some(tex) = self.tex {
            write_u16_le(data, pack_f16(tex.u));
            write_u16_le(data, pack_f16(tex.v));
        }
        proof {
            assert(data@ =~= old(data)@ + packed_vertex_bytes(*self));
        }
    }
}

} // verus!
