//! The library's laws: properties of whole conversions, proved once and
//! for all over the specification functions that the converter's own
//! contracts use.

use crate::dedup::{dedup, lemma_dedup_all_distinct, lemma_dedup_repeat, slot_of};
use crate::fbits::{
    f64_gt, f64_lt, is_nan, lemma_fmax_ge, lemma_fmin_le, lemma_inf_bounds,
};
use crate::layout::{lemma_has_all_stream, spec_stride, Attribute, VertexFieldOffsets};
use crate::mesh::{
    bounds_max, bounds_min, mesh_built, GPUVertex, Mesh, vmax, vmin,
};
use crate::model::{corner_seq, lemma_corners_len, CornerIndex, Object};
use crate::pack::{le16, le32, packed_vertex_bytes, spec_pack_f16, spec_pack_i2_10_10_10};
use crate::fops::f64_to_f32_spec;
use vstd::prelude::*;

verus! {

/// Law: a corner stream without repeated corners gets one output vertex
/// per corner — three per triangle — and one index per corner.
pub proof fn lemma_distinct_corners_full_count(obj: Object, with_tangent: bool, m: Mesh)
    requires
        obj.all_triangles(),
        mesh_built(obj, with_tangent, m),
        forall|i: int, j: int|
            0 <= i < j < corner_seq(obj).len() ==> corner_seq(obj)[i] != corner_seq(obj)[j],
    ensures
        m.vertices@.len() == 3 * obj.primitives@.len(),
        m.indices@.len() == 3 * obj.primitives@.len(),
{
    lemma_dedup_all_distinct(corner_seq(obj));
    lemma_corners_len(obj.primitives@);
}

/// Law: a corner reference that reuses any earlier corner makes
/// deduplication effective: the vertex table stays strictly smaller than
/// the corner count (in particular when a whole triangle reuses corners
/// of previously processed triangles), and the map holds exactly one
/// entry per vertex.
pub proof fn lemma_shared_corners_shrink(
    obj: Object,
    with_tangent: bool,
    m: Mesh,
    i: int,
    k: int,
)
    requires
        obj.all_triangles(),
        mesh_built(obj, with_tangent, m),
        0 <= i < k < corner_seq(obj).len(),
        corner_seq(obj)[i] == corner_seq(obj)[k],
    ensures
        m.vertices@.len() < 3 * obj.primitives@.len(),
        m.map@.dom().len() == m.vertices@.len(),
{
    lemma_corners_len(obj.primitives@);
    lemma_dedup_repeat(corner_seq(obj), i, k);
}

/// Law: feeding the same corner twice yields the same output slot both
/// times — a corner's slot does not depend on where in the stream it
/// appears.
pub proof fn lemma_slot_idempotent(s: Seq<CornerIndex>, i: int, j: int)
    requires
        0 <= i < s.len(),
        0 <= j < s.len(),
        s[i] == s[j],
    ensures
        slot_of(s, i) == slot_of(s, j),
{
}

/// Law, at the mesh level: two corner references that name the same
/// corner produce the same entry in the index list.
pub proof fn lemma_repeat_corner_same_index(
    obj: Object,
    with_tangent: bool,
    m: Mesh,
    i: int,
    j: int,
)
    requires
        mesh_built(obj, with_tangent, m),
        0 <= i < corner_seq(obj).len(),
        0 <= j < corner_seq(obj).len(),
        corner_seq(obj)[i] == corner_seq(obj)[j],
    ensures
        m.indices@[i] == m.indices@[j],
{
}

/// A 32-bit word read back, little-endian, from a byte sequence.
pub open spec fn word32_at(bytes: Seq<u8>, off: int) -> int {
    bytes[off] + 256 * bytes[off + 1] + 65536 * bytes[off + 2] + 16777216 * bytes[off + 3]
}

/// A 16-bit word read back, little-endian, from a byte sequence.
pub open spec fn word16_at(bytes: Seq<u8>, off: int) -> int {
    bytes[off] + 256 * bytes[off + 1]
}

/// Little-endian encoding loses nothing: reading the four bytes back
/// recovers the word.
pub proof fn lemma_le32_roundtrip(w: u32)
    ensures
        word32_at(le32(w), 0) == w,
{
    let x = w as u64;
    assert(x == x % 256 + (x / 256 % 256) * 256 + (x / 65536 % 256) * 65536 + (x / 16777216 % 256)
        * 16777216 || x > 0xFFFF_FFFF) by (bit_vector);
}

/// Little-endian encoding loses nothing, 16-bit form.
pub proof fn lemma_le16_roundtrip(w: u16)
    ensures
        word16_at(le16(w), 0) == w,
{
    let x = w as u64;
    assert(x == x % 256 + (x / 256 % 256) * 256 || x > 0xFFFF) by (bit_vector);
}

/// The vertex carries exactly the attributes the layout marks present.
pub open spec fn vertex_matches_format(v: GPUVertex, fmt: VertexFieldOffsets) -> bool {
    &&& (v.normal is Some <==> fmt.normal is Some)
    &&& (v.tangent is Some <==> fmt.tangent is Some)
    &&& (v.tex is Some <==> fmt.tex0 is Some)
}

/// The offsets have the shape every computed layout has: each present
/// attribute at the next free offset after the 12-byte position, in the
/// order normal, tangent, texture coordinate.
pub open spec fn canonical_layout(fmt: VertexFieldOffsets) -> bool {
    &&& (fmt.normal is Some ==> fmt.normal == Some(12usize))
    &&& (fmt.tangent is Some ==> fmt.tangent == Some(
        (12 + if fmt.normal is Some {
            4int
        } else {
            0int
        }) as usize,
    ))
    &&& (fmt.tex0 is Some ==> fmt.tex0 == Some(
        (12 + (if fmt.normal is Some {
            4int
        } else {
            0int
        }) + (if fmt.tangent is Some {
            4int
        } else {
            0int
        })) as usize,
    ))
}

/// Law: the packed record round-trips through the layout's offsets. Its
/// length is exactly the layout's stride, the three position words read
/// back at offsets 0, 4 and 8 are exactly the single-precision positions,
/// and each present attribute's word reads back exactly at its layout
/// offset.
#[verifier::rlimit(100)]
pub proof fn lemma_packed_roundtrip(v: GPUVertex, fmt: VertexFieldOffsets)
    requires
        vertex_matches_format(v, fmt),
        canonical_layout(fmt),
    ensures
        packed_vertex_bytes(v).len() == spec_stride(fmt),
        word32_at(packed_vertex_bytes(v), 0) == f64_to_f32_spec(v.pos.x),
        word32_at(packed_vertex_bytes(v), 4) == f64_to_f32_spec(v.pos.y),
        word32_at(packed_vertex_bytes(v), 8) == f64_to_f32_spec(v.pos.z),
        match (fmt.normal, v.normal) {
            (Some(o), Some(n)) => word32_at(packed_vertex_bytes(v), o as int)
                == spec_pack_i2_10_10_10(n, 0),
            _ => true,
        },
        match (fmt.tangent, v.tangent) {
            (Some(o), Some(t)) => word32_at(packed_vertex_bytes(v), o as int)
                == spec_pack_i2_10_10_10(t, v.tangent_handedness),
            _ => true,
        },
        match (fmt.tex0, v.tex) {
            (Some(o), Some(t)) => word16_at(packed_vertex_bytes(v), o as int) == spec_pack_f16(t.u)
                && word16_at(packed_vertex_bytes(v), o as int + 2) == spec_pack_f16(t.v),
            _ => true,
        },
{
    let bytes = packed_vertex_bytes(v);
    let px = le32(f64_to_f32_spec(v.pos.x));
    let py = le32(f64_to_f32_spec(v.pos.y));
    let pz = le32(f64_to_f32_spec(v.pos.z));
    lemma_le32_roundtrip(f64_to_f32_spec(v.pos.x));
    lemma_le32_roundtrip(f64_to_f32_spec(v.pos.y));
    lemma_le32_roundtrip(f64_to_f32_spec(v.pos.z));
    assert forall|i: int| 0 <= i < 4 implies bytes[i] == px[i] && bytes[4 + i] == py[i] && bytes[8
        + i] == pz[i] by {}
    if let Some(n) = v.normal {
        lemma_le32_roundtrip(spec_pack_i2_10_10_10(n, 0));
        assert forall|i: int| 0 <= i < 4 implies bytes[12 + i] == le32(
            spec_pack_i2_10_10_10(n, 0),
        )[i] by {}
    }
    if let Some(t) = v.tangent {
        let o = 12 + if v.normal is Some {
            4int
        } else {
            0int
        };
        lemma_le32_roundtrip(spec_pack_i2_10_10_10(t, v.tangent_handedness));
        assert forall|i: int| 0 <= i < 4 implies bytes[o + i] == le32(
            spec_pack_i2_10_10_10(t, v.tangent_handedness),
        )[i] by {}
    }
    if let Some(t) = v.tex {
        let o = 12 + (if v.normal is Some {
            4int
        } else {
            0int
        }) + (if v.tangent is Some {
            4int
        } else {
            0int
        });
        lemma_le16_roundtrip(spec_pack_f16(t.u));
        lemma_le16_roundtrip(spec_pack_f16(t.v));
        assert forall|i: int| 0 <= i < 2 implies bytes[o + i] == le16(spec_pack_f16(t.u))[i]
            && bytes[o + 2 + i] == le16(spec_pack_f16(t.v))[i] by {}
    }
}

/// Law: the running bounds enclose every created vertex position, as
/// long as no position component is NaN (with a NaN component the IEEE
/// order that the running comparison uses gives no such guarantee).
pub proof fn lemma_bounds_enclose(obj: Object, d: Seq<CornerIndex>)
    requires
        forall|i: int| 0 <= i < d.len() ==> (#[trigger] d[i]).position < obj.vertices.len(),
        forall|i: int|
            0 <= i < d.len() ==> !is_nan(obj.vertices@[(#[trigger] d[i]).position as int].x)
                && !is_nan(obj.vertices@[d[i].position as int].y) && !is_nan(
                obj.vertices@[d[i].position as int].z,
            ),
    ensures
        !is_nan(bounds_min(obj, d).x) && !is_nan(bounds_min(obj, d).y) && !is_nan(
            bounds_min(obj, d).z,
        ),
        !is_nan(bounds_max(obj, d).x) && !is_nan(bounds_max(obj, d).y) && !is_nan(
            bounds_max(obj, d).z,
        ),
        forall|j: int|
            0 <= j < d.len() ==> {
                let p = obj.vertices@[(#[trigger] d[j]).position as int];
                &&& !f64_lt(p.x, bounds_min(obj, d).x)
                &&& !f64_lt(p.y, bounds_min(obj, d).y)
                &&& !f64_lt(p.z, bounds_min(obj, d).z)
                &&& !f64_gt(p.x, bounds_max(obj, d).x)
                &&& !f64_gt(p.y, bounds_max(obj, d).y)
                &&& !f64_gt(p.z, bounds_max(obj, d).z)
            },
    decreases d.len(),
{
    if d.len() == 0 {
        lemma_inf_bounds(0);
    } else {
        let dd = d.drop_last();
        assert forall|i: int| 0 <= i < dd.len() implies (#[trigger] dd[i]).position
            < obj.vertices.len() && !is_nan(obj.vertices@[dd[i].position as int].x) && !is_nan(
            obj.vertices@[dd[i].position as int].y,
        ) && !is_nan(obj.vertices@[dd[i].position as int].z) by {
            assert(dd[i] == d[i]);
        }
        lemma_bounds_enclose(obj, dd);
        let last = obj.vertices@[d[d.len() - 1].position as int];
        let mn = bounds_min(obj, dd);
        let mx = bounds_max(obj, dd);
        lemma_fmin_le(mn.x, last.x);
        lemma_fmin_le(mn.y, last.y);
        lemma_fmin_le(mn.z, last.z);
        lemma_fmax_ge(mx.x, last.x);
        lemma_fmax_ge(mx.y, last.y);
        lemma_fmax_ge(mx.z, last.z);
        assert(bounds_min(obj, d) == vmin(mn, last));
        assert(bounds_max(obj, d) == vmax(mx, last));
        assert forall|j: int|
            0 <= j < d.len() implies {
                let p = obj.vertices@[(#[trigger] d[j]).position as int];
                &&& !f64_lt(p.x, bounds_min(obj, d).x)
                &&& !f64_lt(p.y, bounds_min(obj, d).y)
                &&& !f64_lt(p.z, bounds_min(obj, d).z)
                &&& !f64_gt(p.x, bounds_max(obj, d).x)
                &&& !f64_gt(p.y, bounds_max(obj, d).y)
                &&& !f64_gt(p.z, bounds_max(obj, d).z)
            } by {
            if j < d.len() - 1 {
                assert(dd[j] == d[j]);
            }
        }
    }
}

/// Law, at the mesh level: every created vertex lies inside the mesh's
/// bounds, componentwise by the IEEE order — provided no referenced
/// position component is NaN (a NaN is ordered against nothing by the
/// running IEEE comparison).
pub proof fn lemma_mesh_bounds_enclose(obj: Object, with_tangent: bool, m: Mesh, j: int)
    requires
        mesh_built(obj, with_tangent, m),
        forall|i: int|
            0 <= i < corner_seq(obj).len() ==> {
                let p = obj.vertices@[(#[trigger] corner_seq(obj)[i]).position as int];
                !is_nan(p.x) && !is_nan(p.y) && !is_nan(p.z)
            },
        0 <= j < m.vertices@.len(),
    ensures
        !f64_lt(m.vertices@[j].pos.x, m.min.x),
        !f64_lt(m.vertices@[j].pos.y, m.min.y),
        !f64_lt(m.vertices@[j].pos.z, m.min.z),
        !f64_gt(m.vertices@[j].pos.x, m.max.x),
        !f64_gt(m.vertices@[j].pos.y, m.max.y),
        !f64_gt(m.vertices@[j].pos.z, m.max.z),
{
    let cs = corner_seq(obj);
    let d = dedup(cs);
    assert forall|i: int| 0 <= i < d.len() implies (#[trigger] d[i]).position < obj.vertices.len()
        && !is_nan(obj.vertices@[d[i].position as int].x) && !is_nan(
        obj.vertices@[d[i].position as int].y,
    ) && !is_nan(obj.vertices@[d[i].position as int].z) by {
        assert(d.contains(d[i]));
        crate::dedup::lemma_dedup_contains(cs, d[i]);
        let w = choose|w: int| 0 <= w < cs.len() && cs[w] == d[i];
        assert(corner_seq(obj)[w] == d[i]);
    }
    lemma_bounds_enclose(obj, d);
    assert(m.vertices@[j] == crate::mesh::spec_resolve(obj, m.format, d[j]));
}

/// After a conversion, every vertex carries exactly the optional
/// attributes its layout kept (tangents excepted: they stay empty until
/// a tangent pass installs them), and the layout's offsets have the
/// canonical shape — so the packed round-trip law applies to each
/// vertex once any requested tangents are in place.
pub proof fn lemma_built_vertex_attributes(obj: Object, with_tangent: bool, m: Mesh, j: int)
    requires
        obj.all_triangles(),
        mesh_built(obj, with_tangent, m),
        0 <= j < m.vertices@.len(),
    ensures
        canonical_layout(m.format),
        m.vertices@[j].normal is Some <==> m.format.normal is Some,
        m.vertices@[j].tex is Some <==> m.format.tex0 is Some,
        m.vertices@[j].tangent is None,
        m.format.tangent is Some <==> with_tangent,
        !with_tangent ==> vertex_matches_format(m.vertices@[j], m.format),
{
    let cs = corner_seq(obj);
    let d = dedup(cs);
    assert(m.vertices@[j] == crate::mesh::spec_resolve(obj, m.format, d[j]));
    assert(d.contains(d[j]));
    crate::dedup::lemma_dedup_contains(cs, d[j]);
    let w = choose|w: int| 0 <= w < cs.len() && cs[w] == d[j];
    if m.format.normal is Some {
        lemma_has_all_stream(obj.primitives@, Attribute::Normal);
        assert(crate::layout::spec_has_attribute(cs[w], Attribute::Normal));
    }
    if m.format.tex0 is Some {
        lemma_has_all_stream(obj.primitives@, Attribute::Tex0);
        assert(crate::layout::spec_has_attribute(cs[w], Attribute::Tex0));
    }
}

} // verus!
