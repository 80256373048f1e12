//! The numeric core checked against the machine's own floating point:
//! the verified integer implementations of comparison, multiplication,
//! narrowing and quantization must agree bit-for-bit with the hardware
//! operations they model, and the packed byte layout must round-trip.

use gpumesh::fbits::{f64_gt_bits, f64_lt_bits, fmax_bits, fmin_bits, is_nan_bits};
use gpumesh::fops::{f64_ceil_to_u32, f64_mul, f64_to_f16, f64_to_f32, u32_to_f64};
use gpumesh::mesh::{GPUVertex, Mesh};
use gpumesh::model::{CornerIndex, Object, Primitive, TexCoord, Vec3};
use gpumesh::pack::{pack_f16, pack_i2_10_10_10, pack_normalized};

/// A deterministic pseudorandom 64-bit stream (linear congruential).
struct Lcg(u64);

impl Lcg {
    fn next(&mut self) -> u64 {
        self.0 = self
            .0
            .wrapping_mul(6364136223846793005)
            .wrapping_add(1442695040888963407);
        self.0
    }
}

fn corpus() -> Vec<u64> {
    let mut out: Vec<u64> = vec![
        0.0f64.to_bits(),
        (-0.0f64).to_bits(),
        1.0f64.to_bits(),
        (-1.0f64).to_bits(),
        0.5f64.to_bits(),
        2.0f64.to_bits(),
        511.0f64.to_bits(),
        (1.0f64 / 3.0).to_bits(),
        f64::INFINITY.to_bits(),
        f64::NEG_INFINITY.to_bits(),
        f64::NAN.to_bits(),
        0x7FF0_0000_0000_0001,
        0xFFF8_0000_0000_0000,
        1,                      // smallest subnormal
        0x000F_FFFF_FFFF_FFFF,  // largest subnormal
        0x0010_0000_0000_0000,  // smallest normal
        0x7FEF_FFFF_FFFF_FFFF,  // largest finite
        (1.0f64 + f64::EPSILON).to_bits(),
        (1.0f64 + 2.0f64.powi(-24)).to_bits(),      // tie when narrowing to f32
        (1.0f64 + 3.0 * 2.0f64.powi(-24)).to_bits(),
        (1.0f64 + 2.0f64.powi(-11)).to_bits(),      // tie when narrowing to f16
        (1.0f64 + 3.0 * 2.0f64.powi(-11)).to_bits(),
        65504.0f64.to_bits(),   // largest finite half
        65520.0f64.to_bits(),   // the tie just above it
        65536.0f64.to_bits(),
        2.0f64.powi(-24).to_bits(),
        2.0f64.powi(-25).to_bits(),
        (1.5 * 2.0f64.powi(-25)).to_bits(),
    ];
    let mut rng = Lcg(0x9E37_79B9_7F4A_7C15);
    for _ in 0..4000 {
        out.push(rng.next());
    }
    // Moderate magnitudes too, not just full-range patterns.
    for _ in 0..4000 {
        let r = rng.next();
        let small = ((r % 2_000_000) as f64 / 1000.0 - 1000.0) * 1.001;
        out.push(small.to_bits());
    }
    out
}

#[test]
fn comparison_matches_hardware_order() {
    let cs = corpus();
    for (i, &a) in cs.iter().enumerate() {
        let fa = f64::from_bits(a);
        assert_eq!(is_nan_bits(a), fa.is_nan());
        // Pair each value with a window of others.
        for &b in cs.iter().skip(i).take(40) {
            let fb = f64::from_bits(b);
            assert_eq!(f64_lt_bits(a, b), fa < fb, "lt {a:#x} {b:#x}");
            assert_eq!(f64_gt_bits(a, b), fa > fb, "gt {a:#x} {b:#x}");
        }
    }
}

#[test]
fn min_max_selection_matches_the_running_comparison() {
    let cs = corpus();
    for (i, &a) in cs.iter().enumerate() {
        let fa = f64::from_bits(a);
        for &b in cs.iter().skip(i).take(40) {
            let fb = f64::from_bits(b);
            let want_min = if fa < fb { a } else { b };
            let want_max = if fa > fb { a } else { b };
            assert_eq!(fmin_bits(a, b), want_min);
            assert_eq!(fmax_bits(a, b), want_max);
        }
    }
}

#[test]
fn multiplication_matches_hardware() {
    let cs = corpus();
    for (i, &a) in cs.iter().enumerate() {
        let fa = f64::from_bits(a);
        for &b in cs.iter().skip(i).take(30) {
            let fb = f64::from_bits(b);
            let want = fa * fb;
            let got = f64_mul(a, b);
            if want.is_nan() {
                assert!(f64::from_bits(got).is_nan(), "{a:#x} * {b:#x}");
            } else {
                assert_eq!(got, want.to_bits(), "{a:#x} * {b:#x}");
            }
        }
    }
}

#[test]
fn u32_conversion_is_exact() {
    for v in [0u32, 1, 2, 255, 511, 65535, 1 << 24, u32::MAX] {
        assert_eq!(u32_to_f64(v), (v as f64).to_bits());
    }
}

#[test]
fn narrowing_to_f32_matches_the_cast() {
    for b in corpus() {
        let f = f64::from_bits(b);
        let got = f64_to_f32(b);
        if f.is_nan() {
            assert!(f32::from_bits(got).is_nan());
        } else {
            assert_eq!(got, (f as f32).to_bits(), "{b:#x}");
        }
    }
}

#[test]
fn narrowing_to_f16_matches_known_values() {
    let cases: [(f64, u16); 12] = [
        (0.0, 0x0000),
        (-0.0, 0x8000),
        (1.0, 0x3C00),
        (-1.0, 0xBC00),
        (0.5, 0x3800),
        (65504.0, 0x7BFF),
        (65520.0, 0x7C00),               // the tie above the largest half: to infinity
        (f64::INFINITY, 0x7C00),
        (2.0f64.powi(-24), 0x0001),      // smallest subnormal half
        (1.5 * 2.0f64.powi(-25), 0x0001),
        (2.0f64.powi(-25), 0x0000),      // tie at zero: to even
        (1.0 + 2.0f64.powi(-11), 0x3C00),// tie at one: to even
    ];
    for (f, want) in cases {
        assert_eq!(f64_to_f16(f.to_bits()), want, "{f}");
    }
    assert_eq!(f64_to_f16((1.0f64 + 3.0 * 2.0f64.powi(-11)).to_bits()), 0x3C02);
}

#[test]
fn narrowing_to_f16_matches_half_on_single_precision_values() {
    // On values that are exactly representable in single precision, one
    // rounding step to half precision is the same from either width, so
    // the half crate's single-precision conversion is an exact oracle.
    let mut rng = Lcg(0x2545_F491_4F6C_DD1D);
    let mut checked = 0u32;
    for _ in 0..20000 {
        let f32bits = (rng.next() >> 32) as u32;
        let f = f32::from_bits(f32bits);
        if f.is_nan() {
            continue;
        }
        let via_lib = f64_to_f16((f as f64).to_bits());
        let via_half = half::f16::from_f32(f).to_bits();
        assert_eq!(via_lib, via_half, "{f32bits:#x}");
        checked += 1;
    }
    assert!(checked > 10000);
}

#[test]
fn ceiling_cast_matches_the_idiom() {
    for b in corpus() {
        let f = f64::from_bits(b);
        assert_eq!(f64_ceil_to_u32(b), f.ceil() as u32, "{b:#x}");
    }
}

#[test]
fn quantization_matches_the_float_formula() {
    for b in corpus() {
        let f = f64::from_bits(b);
        for max in [511u32, 1] {
            let want = f64::ceil(f * max as f64) as u32;
            assert_eq!(pack_normalized(b, max), want, "{b:#x} * {max}");
        }
    }
}

#[test]
fn packed_word_places_fields_at_their_bit_offsets() {
    let n = Vec3 {
        x: 1.0f64.to_bits(),
        y: 0.0f64.to_bits(),
        z: 0.25f64.to_bits(),
    };
    // x: ceil(511) = 511; y: 0; z: ceil(127.75) = 128; w = 0.
    let w = pack_i2_10_10_10(&n, 0.0f64.to_bits());
    assert_eq!(w & 0x3FF, 511);
    assert_eq!((w >> 10) & 0x3FF, 0);
    assert_eq!((w >> 20) & 0x3FF, 128);
    assert_eq!(w >> 30, 0);
    // A positive handedness lands in the top field; a negative one
    // saturates to zero, exactly as the ceiling cast does.
    let wp = pack_i2_10_10_10(&n, 1.0f64.to_bits());
    assert_eq!(wp >> 30, 1);
    let wn = pack_i2_10_10_10(&n, (-1.0f64).to_bits());
    assert_eq!(wn >> 30, 0);
}

fn wrap_reference(mut x: f64) -> f64 {
    while x > 1.0 {
        x -= 1.0;
    }
    while x < -1.0 {
        x += 1.0;
    }
    x
}

#[test]
fn texcoord_wrap_matches_the_repeated_adjustment() {
    let cases = [
        0.25, 1.0, -1.0, 1.75, 2.0, 2.5, 130.625, -1.25, -2.0, -37.375, 0.0, -0.75,
        1.0000001, f64::NAN, 0.3, 1e6 + 0.5,
    ];
    for f in cases {
        let got = pack_f16(f.to_bits());
        let want = f64_to_f16(wrap_reference(f).to_bits());
        assert_eq!(got, want, "{f}");
    }
}

#[test]
fn packed_vertex_roundtrips_through_the_layout() {
    // A quad with tangents: all four attributes present.
    let obj = Object {
        vertices: vec![
            Vec3 { x: 0.125f64.to_bits(), y: 0.0f64.to_bits(), z: 9.5f64.to_bits() },
            Vec3 { x: 1.0f64.to_bits(), y: 0.0f64.to_bits(), z: 0.0f64.to_bits() },
            Vec3 { x: 1.0f64.to_bits(), y: 1.0f64.to_bits(), z: 0.0f64.to_bits() },
        ],
        tex_vertices: vec![
            TexCoord { u: 0.0f64.to_bits(), v: 1.5f64.to_bits() },
            TexCoord { u: 1.0f64.to_bits(), v: 0.0f64.to_bits() },
            TexCoord { u: (-0.5f64).to_bits(), v: 0.75f64.to_bits() },
        ],
        normals: vec![Vec3 {
            x: 0.0f64.to_bits(),
            y: 0.0f64.to_bits(),
            z: 1.0f64.to_bits(),
        }],
        primitives: vec![Primitive::Triangle(
            CornerIndex { position: 0, texcoord: Some(0), normal: Some(0) },
            CornerIndex { position: 1, texcoord: Some(1), normal: Some(0) },
            CornerIndex { position: 2, texcoord: Some(2), normal: Some(0) },
        )],
    };
    let mesh = Mesh::from_object(&obj, true).unwrap();
    let fmt = mesh.format;
    assert_eq!((fmt.normal, fmt.tangent, fmt.tex0), (Some(12), Some(16), Some(20)));

    let v: GPUVertex = GPUVertex {
        tangent: Some(Vec3 {
            x: 1.0f64.to_bits(),
            y: 0.0f64.to_bits(),
            z: 0.0f64.to_bits(),
        }),
        tangent_handedness: 1.0f64.to_bits(),
        ..mesh.vertices[0]
    };
    let mut data = vec![0xAAu8];  // pre-existing bytes must stay put
    v.write_to(&mut data);
    assert_eq!(data[0], 0xAA);
    let rec = &data[1..];
    assert_eq!(rec.len(), fmt.stride());

    // Positions read back exactly at single precision.
    let read32 = |off: usize| {
        u32::from_le_bytes([rec[off], rec[off + 1], rec[off + 2], rec[off + 3]])
    };
    let read16 = |off: usize| u16::from_le_bytes([rec[off], rec[off + 1]]);
    assert_eq!(f32::from_bits(read32(0)), 0.125f32);
    assert_eq!(f32::from_bits(read32(4)), 0.0f32);
    assert_eq!(f32::from_bits(read32(8)), 9.5f32);

    // The normal word at its offset: z axis quantized to 511, the rest 0.
    let nw = read32(fmt.normal.unwrap());
    assert_eq!(nw & 0x3FF, 0);
    assert_eq!((nw >> 20) & 0x3FF, 511);
    assert_eq!(nw >> 30, 0);

    // The tangent word: x axis 511, handedness 1 at bit 30.
    let tw = read32(fmt.tangent.unwrap());
    assert_eq!(tw & 0x3FF, 511);
    assert_eq!(tw >> 30, 1);

    // Texture coordinates within half precision (and the wrap tolerance):
    // u = 0.0 exactly, v = 1.5 wraps to 0.5.
    let tu = half::f16::from_bits(read16(fmt.tex0.unwrap()));
    let tv = half::f16::from_bits(read16(fmt.tex0.unwrap() + 2));
    assert_eq!(f64::from(tu), 0.0);
    assert_eq!(f64::from(tv), 0.5);
}

#[test]
fn packed_buffer_concatenates_records_and_indices() {
    let obj = Object {
        vertices: vec![
            Vec3 { x: 0.0f64.to_bits(), y: 0.0f64.to_bits(), z: 0.0f64.to_bits() },
            Vec3 { x: 1.0f64.to_bits(), y: 0.0f64.to_bits(), z: 0.0f64.to_bits() },
            Vec3 { x: 0.0f64.to_bits(), y: 1.0f64.to_bits(), z: 0.0f64.to_bits() },
        ],
        tex_vertices: vec![],
        normals: vec![],
        primitives: vec![
            Primitive::Triangle(
                CornerIndex { position: 0, texcoord: None, normal: None },
                CornerIndex { position: 1, texcoord: None, normal: None },
                CornerIndex { position: 2, texcoord: None, normal: None },
            ),
            Primitive::Triangle(
                CornerIndex { position: 2, texcoord: None, normal: None },
                CornerIndex { position: 1, texcoord: None, normal: None },
                CornerIndex { position: 0, texcoord: None, normal: None },
            ),
        ],
    };
    let mesh = Mesh::from_object(&obj, false).unwrap();
    let buf = mesh.to_packed_buffer();
    // 3 position-only records of 12 bytes, then 6 one-byte indices.
    assert_eq!(buf.len(), 3 * 12 + 6);
    assert_eq!(&buf[36..], &[0u8, 1, 2, 2, 1, 0]);
    let x1 = u32::from_le_bytes([buf[12], buf[13], buf[14], buf[15]]);
    assert_eq!(f32::from_bits(x1), 1.0f32);
}

#[test]
fn packability_check_rejects_untamable_texcoords() {
    let good = GPUVertex {
        pos: Vec3 { x: 0, y: 0, z: 0 },
        normal: None,
        tangent: None,
        tangent_handedness: 0,
        tex: Some(TexCoord { u: 1.5f64.to_bits(), v: f64::NAN.to_bits() }),
    };
    assert!(good.check_packable());
    // A texture coordinate at 2^53: the repeated unit adjustment would
    // never bring it into range.
    let bad = GPUVertex {
        tex: Some(TexCoord {
            u: 9007199254740992.0f64.to_bits(),
            v: 0.0f64.to_bits(),
        }),
        ..good
    };
    assert!(!bad.check_packable());
    let no_tex = GPUVertex { tex: None, ..good };
    assert!(no_tex.check_packable());
}

#[test]
fn packed_record_without_optional_attributes_is_position_only() {
    let v = GPUVertex {
        pos: Vec3 {
            x: 2.5f64.to_bits(),
            y: (-0.25f64).to_bits(),
            z: 100.0f64.to_bits(),
        },
        normal: None,
        tangent: None,
        tangent_handedness: 0,
        tex: None,
    };
    let mut data = Vec::new();
    v.write_to(&mut data);
    assert_eq!(data.len(), 12);
    assert_eq!(
        f32::from_bits(u32::from_le_bytes([data[4], data[5], data[6], data[7]])),
        -0.25f32
    );
}
