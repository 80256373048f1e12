//! The converter itself: corner deduplication into an indexed vertex
//! table, bounds tracking, and the error taxonomy of the conversion.
//!
//! Each distinct `CornerIndex` is interned as one wide integer key and
//! mapped to a single output vertex slot; shared corners across triangles
//! are emitted once, in first-seen order.

use crate::dedup::{
    dedup, first_index, lemma_dedup_contains, lemma_dedup_distinct, lemma_first_index_push,
    lemma_first_index_spec,
};
use crate::fbits::{fmax, fmax_bits, fmin, fmin_bits, INF_BITS, NEG_INF_BITS};
use crate::layout::{spec_has_all, spec_layout, Attribute, VertexFieldOffsets};
use crate::model::{corner_in_bounds, corner_seq, corners_of, lemma_corners_len,
    lemma_corners_take_step, primitive_in_bounds, CornerIndex, Object, Primitive, TexCoord, Vec3};
use std::collections::HashMap;
use vstd::arithmetic::div_mod::lemma_fundamental_div_mod_converse;
use vstd::prelude::*;

verus! {

broadcast use vstd::std_specs::hash::group_hash_axioms;

/// Why a conversion was aborted. No partial mesh is ever returned.
#[derive(Clone, Copy, Debug, PartialEq, Eq)]
pub enum MeshError {
    /// A primitive that is not a triangle appeared in the source geometry.
    UnsupportedPrimitive,
    /// Tangent generation was requested, but some corner lacks a normal or
    /// a texture coordinate.
    MissingRequiredAttribute,
}

/// A fully resolved output vertex: position, and the optional attributes
/// the layout kept. The tangent is filled by a later pass; its handedness
/// is the bit pattern of a double (`0.0` until then, `±1.0` after).
#[derive(Clone, Copy, Debug, PartialEq, Eq)]
pub struct GPUVertex {
    pub pos: Vec3,
    pub normal: Option<Vec3>,
    pub tangent: Option<Vec3>,
    pub tangent_handedness: u64,
    pub tex: Option<TexCoord>,
}

/// A derived tangent for one vertex: the vector and the handedness sign
/// (bit pattern of `1.0` or `-1.0`).
#[derive(Clone, Copy, Debug, PartialEq, Eq)]
pub struct Tangent {
    pub vector: Vec3,
    pub handedness: u64,
}

/// One field width of the interned corner key. Pool indices fit in 32
/// bits (`Object::wf`), so index-plus-one codes fit well inside it.
pub const KEY_FIELD: u128 = 0x4_0000_0000;

/// An optional pool index as a key digit: zero for absent, index plus one
/// otherwise.
pub open spec fn opt_code(o: Option<usize>) -> int {
    match o {
        None => 0,
        Some(i) => i + 1,
    }
}

/// All three indices of the corner fit in 32 bits.
pub open spec fn corner_bounded(c: CornerIndex) -> bool {
    &&& c.position <= 0xFFFF_FFFF
    &&& opt_code(c.texcoord) <= 0x1_0000_0000
    &&& opt_code(c.normal) <= 0x1_0000_0000
}

/// The interned corner key: the three key digits in base `KEY_FIELD`.
/// Injective on bounded corners, so structural equality of corners is
/// equality of keys.
pub open spec fn corner_key(c: CornerIndex) -> u128 {
    (c.position + opt_code(c.texcoord) * KEY_FIELD + opt_code(c.normal) * KEY_FIELD
        * KEY_FIELD) as u128
}

/// Intern a corner as its key.
pub fn intern_corner(c: &CornerIndex) -> (k: u128)
    requires
        corner_bounded(*c),
    ensures
        k == corner_key(*c),
{
    let t: u128 = match c.texcoord {
        None => 0,
        Some(i) => i as u128 + 1,
    };
    let n: u128 = match c.normal {
        None => 0,
        Some(i) => i as u128 + 1,
    };
    c.position as u128 + t * KEY_FIELD + n * KEY_FIELD * KEY_FIELD
}

/// Key digits are recovered from the key, so equal keys mean equal
/// corners.
pub proof fn lemma_corner_key_injective(c1: CornerIndex, c2: CornerIndex)
    requires
        corner_bounded(c1),
        corner_bounded(c2),
        corner_key(c1) == corner_key(c2),
    ensures
        c1 == c2,
{
    let kf = KEY_FIELD as int;
    let x1 = c1.position + opt_code(c1.texcoord) * kf + opt_code(c1.normal) * kf * kf;
    let x2 = c2.position + opt_code(c2.texcoord) * kf + opt_code(c2.normal) * kf * kf;
    assert(x1 == x2) by {
        assert(0 <= x1 < 0x1_0000_0000_0000_0000_0000_0000_0000_0000);
        assert(0 <= x2 < 0x1_0000_0000_0000_0000_0000_0000_0000_0000);
    }
    let t1 = opt_code(c1.texcoord) + opt_code(c1.normal) * kf;
    let t2 = opt_code(c2.texcoord) + opt_code(c2.normal) * kf;
    assert(x1 == t1 * kf + c1.position) by {
        assert(t1 * kf == opt_code(c1.texcoord) * kf + opt_code(c1.normal) * kf * kf) by {
            vstd::arithmetic::mul::lemma_mul_is_distributive_add_other_way(
                kf,
                opt_code(c1.texcoord),
                opt_code(c1.normal) * kf,
            );
            vstd::arithmetic::mul::lemma_mul_is_associative(opt_code(c1.normal), kf, kf);
        }
    }
    assert(x2 == t2 * kf + c2.position) by {
        assert(t2 * kf == opt_code(c2.texcoord) * kf + opt_code(c2.normal) * kf * kf) by {
            vstd::arithmetic::mul::lemma_mul_is_distributive_add_other_way(
                kf,
                opt_code(c2.texcoord),
                opt_code(c2.normal) * kf,
            );
            vstd::arithmetic::mul::lemma_mul_is_associative(opt_code(c2.normal), kf, kf);
        }
    }
    lemma_fundamental_div_mod_converse(x1, kf, t1, c1.position as int);
    lemma_fundamental_div_mod_converse(x2, kf, t2, c2.position as int);
    assert(c1.position == c2.position && t1 == t2);
    lemma_fundamental_div_mod_converse(t1, kf, opt_code(c1.normal), opt_code(c1.texcoord));
    lemma_fundamental_div_mod_converse(t2, kf, opt_code(c2.normal), opt_code(c2.texcoord));
    assert(opt_code(c1.texcoord) == opt_code(c2.texcoord));
    assert(opt_code(c1.normal) == opt_code(c2.normal));
}

/// A corner resolved against the pools: missing optional indices, or
/// attributes the layout dropped, yield absent fields. Tangents are never
/// resolved from the source; they stay empty for a later pass.
pub open spec fn spec_resolve(obj: Object, fmt: VertexFieldOffsets, c: CornerIndex) -> GPUVertex {
    GPUVertex {
        pos: obj.vertices[c.position as int],
        normal: match c.normal {
            Some(i) => if fmt.normal is Some {
                Some(obj.normals[i as int])
            } else {
                None
            },
            None => None,
        },
        tangent: None,
        tangent_handedness: 0,
        tex: match c.texcoord {
            Some(i) => if fmt.tex0 is Some {
                Some(obj.tex_vertices[i as int])
            } else {
                None
            },
            None => None,
        },
    }
}

impl GPUVertex {
    /// Resolve one corner against the model's pools under the mesh's
    /// layout.
    pub fn from_corner_and_obj(c: &CornerIndex, obj: &Object, format: &VertexFieldOffsets) -> (v:
        GPUVertex)
        requires
            corner_in_bounds(*c, *obj),
        ensures
            v == spec_resolve(*obj, *format, *c),
    {
        GPUVertex {
            pos: obj.vertices[c.position],
            normal: match c.normal {
                Some(i) => if format.normal.is_some() {
                    Some(obj.normals[i])
                } else {
                    None
                },
                None => None,
            },
            tangent: None,
            tangent_handedness: 0,
            tex: match c.texcoord {
                Some(i) => if format.tex0.is_some() {
                    Some(obj.tex_vertices[i])
                } else {
                    None
                },
                None => None,
            },
        }
    }
}

/// Componentwise minimum of two 3-component records, by IEEE `<` on each
/// component's bit pattern.
pub open spec fn vmin(a: Vec3, b: Vec3) -> Vec3 {
    Vec3 { x: fmin(a.x, b.x), y: fmin(a.y, b.y), z: fmin(a.z, b.z) }
}

/// Componentwise maximum of two 3-component records.
pub open spec fn vmax(a: Vec3, b: Vec3) -> Vec3 {
    Vec3 { x: fmax(a.x, b.x), y: fmax(a.y, b.y), z: fmax(a.z, b.z) }
}

/// The corner bounds start at positive infinity …
pub open spec fn initial_min() -> Vec3 {
    Vec3 { x: INF_BITS, y: INF_BITS, z: INF_BITS }
}

/// … and negative infinity, so the first vertex replaces them.
pub open spec fn initial_max() -> Vec3 {
    Vec3 { x: NEG_INF_BITS, y: NEG_INF_BITS, z: NEG_INF_BITS }
}

/// Running componentwise minimum over the positions of the distinct
/// corners, in creation order.
pub open spec fn bounds_min(obj: Object, d: Seq<CornerIndex>) -> Vec3
    decreases d.len(),
{
    if d.len() == 0 {
        initial_min()
    } else {
        vmin(bounds_min(obj, d.drop_last()), obj.vertices[d.last().position as int])
    }
}

/// Running componentwise maximum over the positions of the distinct
/// corners.
pub open spec fn bounds_max(obj: Object, d: Seq<CornerIndex>) -> Vec3
    decreases d.len(),
{
    if d.len() == 0 {
        initial_max()
    } else {
        vmax(bounds_max(obj, d.drop_last()), obj.vertices[d.last().position as int])
    }
}

/// Componentwise minimum of two records.
pub fn vert_min(a: &Vec3, b: &Vec3) -> (r: Vec3)
    ensures
        r == vmin(*a, *b),
{
    Vec3 { x: fmin_bits(a.x, b.x), y: fmin_bits(a.y, b.y), z: fmin_bits(a.z, b.z) }
}

/// Componentwise maximum of two records.
pub fn vert_max(a: &Vec3, b: &Vec3) -> (r: Vec3)
    ensures
        r == vmax(*a, *b),
{
    Vec3 { x: fmax_bits(a.x, b.x), y: fmax_bits(a.y, b.y), z: fmax_bits(a.z, b.z) }
}

/// The output mesh: the deduplicated vertex table in first-seen order,
/// one index per corner reference, the corner-to-slot map used during
/// construction, the attribute layout, and the running bounds.
#[derive(Debug)]
pub struct Mesh {
    pub vertices: Vec<GPUVertex>,
    pub indices: Vec<usize>,
    pub map: HashMap<u128, usize>,
    pub format: VertexFieldOffsets,
    pub min: Vec3,
    pub max: Vec3,
}

/// The state of a mesh that has consumed exactly the corner stream `cs`
/// of model `obj` under layout `fmt`:
/// the vertex table resolves the distinct corners in first-seen order,
/// each index is its corner's slot, the map is exactly the
/// corner-key-to-slot bijection, and the bounds fold the created
/// positions.
pub open spec fn mesh_state(obj: Object, fmt: VertexFieldOffsets, cs: Seq<CornerIndex>, m: Mesh) -> bool {
    let d = dedup(cs);
    &&& forall|i: int| 0 <= i < cs.len() ==> corner_in_bounds(#[trigger] cs[i], obj)
    &&& m.format == fmt
    &&& m.vertices@.len() == d.len()
    &&& forall|j: int| 0 <= j < d.len() ==> m.vertices@[j] == spec_resolve(obj, fmt, #[trigger] d[j])
    &&& m.indices@.len() == cs.len()
    &&& forall|i: int| 0 <= i < cs.len() ==> #[trigger] m.indices@[i] == first_index(d, cs[i])
    &&& forall|j: int|
        0 <= j < d.len() ==> m.map@.contains_key(corner_key(#[trigger] d[j]))
            && m.map@[corner_key(d[j])] == j
    &&& forall|k: u128|
        #[trigger] m.map@.dom().contains(k) ==> 0 <= m.map@[k] < d.len()
            && corner_key(d[m.map@[k] as int]) == k
    &&& m.map@.dom().finite()
    &&& m.map@.dom().len() == d.len()
    &&& m.min == bounds_min(obj, d)
    &&& m.max == bounds_max(obj, d)
}

/// What `from_object` builds on success: the mesh state over the model's
/// whole corner stream, under the layout the model gets, with every index
/// naming an existing vertex.
pub open spec fn mesh_built(obj: Object, with_tangent: bool, m: Mesh) -> bool {
    &&& m.format == spec_layout(obj, with_tangent)
    &&& mesh_state(obj, m.format, corner_seq(obj), m)
    &&& forall|i: int|
        0 <= i < m.indices@.len() ==> 0 <= #[trigger] m.indices@[i] < m.vertices@.len()
}

/// Normals and texture coordinates are supplied by every corner, which is
/// what the tangent pass needs to read.
pub open spec fn tangent_inputs_complete(obj: Object) -> bool {
    spec_has_all(obj, Attribute::Normal) && spec_has_all(obj, Attribute::Tex0)
}

/// Number of bytes per index in the packed output: one byte addresses up
/// to 256 vertices, two bytes up to 65536, four bytes the rest.
pub open spec fn spec_index_size(n: nat) -> usize {
    if n <= 256 {
        1
    } else if n <= 65536 {
        2
    } else {
        4
    }
}

impl Mesh {
    /// Resolve a fresh corner, update the bounds with its position, and
    /// append it to the vertex table; its slot is returned.
    fn create_vertex(&mut self, corner: CornerIndex, obj: &Object, format: &VertexFieldOffsets) -> (idx: usize)
        requires
            corner_in_bounds(corner, *obj),
        ensures
            idx == old(self).vertices@.len(),
            final(self).vertices@ == old(self).vertices@.push(spec_resolve(*obj, *format, corner)),
            final(self).min == vmin(old(self).min, obj.vertices@[corner.position as int]),
            final(self).max == vmax(old(self).max, obj.vertices@[corner.position as int]),
            final(self).indices == old(self).indices,
            final(self).map@ == old(self).map@,
            final(self).format == old(self).format,
    {
        let idx = self.vertices.len();

        let v = GPUVertex::from_corner_and_obj(&corner, obj, format);

        self.min = vert_min(&self.min, &v.pos);
        self.max = vert_max(&self.max, &v.pos);

        self.vertices.push(v);

        idx
    }

    /// Look the corner up; a known corner only appends its stored slot to
    /// the index list, a fresh one is resolved, recorded and indexed.
    pub fn add_index(&mut self, corner: CornerIndex, obj: &Object, format: &VertexFieldOffsets)
        requires
            corner_in_bounds(corner, *obj),
            corner_bounded(corner),
        ensures
            ({
                let k = corner_key(corner);
                if old(self).map@.contains_key(k) {
                    &&& final(self).indices@ == old(self).indices@.push(old(self).map@[k])
                    &&& final(self).vertices == old(self).vertices
                    &&& final(self).map@ == old(self).map@
                    &&& final(self).min == old(self).min
                    &&& final(self).max == old(self).max
                    &&& final(self).format == old(self).format
                } else {
                    &&& final(self).vertices@ == old(self).vertices@.push(
                        spec_resolve(*obj, *format, corner),
                    )
                    &&& final(self).map@ == old(self).map@.insert(k, old(self).vertices@.len() as usize)
                    &&& final(self).indices@ == old(self).indices@.push(
                        old(self).vertices@.len() as usize,
                    )
                    &&& final(self).min == vmin(
                        old(self).min,
                        obj.vertices@[corner.position as int],
                    )
                    &&& final(self).max == vmax(
                        old(self).max,
                        obj.vertices@[corner.position as int],
                    )
                    &&& final(self).format == old(self).format
                }
            }),
    {
        let key = intern_corner(&corner);
        let mut found: Option<usize> = None;
        match self.map.get(&key) {
            Some(i) => {
                found = Some(*i);
            },
            None => {},
        }
        match found {
            Some(idx) => {
                self.indices.push(idx);
            },
            None => {
                let idx = self.create_vertex(corner, obj, format);
                self.map.insert(key, idx);
                self.indices.push(idx);
            },
        }
    }

    /// One deduplication step with its bookkeeping: consuming corner `c`
    /// takes the mesh from the state over `cs` to the state over
    /// `cs.push(c)`.
    fn add_corner_step(&mut self, corner: CornerIndex, obj: &Object, format: &VertexFieldOffsets,
        cs: Ghost<Seq<CornerIndex>>)
        requires
            corner_in_bounds(corner, *obj),
            corner_bounded(corner),
            forall|i: int| 0 <= i < cs@.len() ==> corner_bounded(#[trigger] cs@[i]),
            mesh_state(*obj, *format, cs@, *old(self)),
        ensures
            mesh_state(*obj, *format, cs@.push(corner), *final(self)),
    {
        proof {
            lemma_dedup_distinct(cs@);
        }
        let ghost d = dedup(cs@);
        let ghost cs2 = cs@.push(corner);
        proof {
            assert(cs2.drop_last() =~= cs@);
            assert(forall|i: int| 0 <= i < cs@.len() ==> cs2[i] == cs@[i]);
        }
        self.add_index(corner, obj, format);
        proof {
            let k = corner_key(corner);
            let m_old = *old(self);
            assert(m_old.vertices@.len() <= usize::MAX) by {
                assert(m_old.vertices.len() == m_old.vertices@.len());
            }
            // The map knows the corner exactly when the distinct list does.
            assert(m_old.map@.contains_key(k) == d.contains(corner)) by {
                if m_old.map@.contains_key(k) {
                    let j = m_old.map@[k] as int;
                    assert(corner_key(d[j]) == k);
                    assert(cs@.contains(d[j])) by {
                        assert(d.contains(d[j]));
                        lemma_dedup_contains(cs@, d[j]);
                    }
                    assert(corner_bounded(d[j])) by {
                        let i = choose|i: int| 0 <= i < cs@.len() && cs@[i] == d[j];
                    }
                    lemma_corner_key_injective(d[j], corner);
                    assert(d.contains(corner));
                }
                if d.contains(corner) {
                    let j = choose|j: int| 0 <= j < d.len() && d[j] == corner;
                    assert(m_old.map@.contains_key(corner_key(d[j])));
                }
            }
            if d.contains(corner) {
                // Repeat corner: the distinct list, and with it everything
                // derived from it, is unchanged.
                assert(dedup(cs2) == d);
                let j0 = m_old.map@[k] as int;
                assert(d[j0] == corner) by {
                    assert(corner_key(d[j0]) == k);
                    assert(cs@.contains(d[j0])) by {
                        assert(d.contains(d[j0]));
                        lemma_dedup_contains(cs@, d[j0]);
                    }
                    let i = choose|i: int| 0 <= i < cs@.len() && cs@[i] == d[j0];
                    lemma_corner_key_injective(d[j0], corner);
                }
                assert(first_index(d, corner) == j0) by {
                    lemma_first_index_spec(d, corner);
                    let fi = first_index(d, corner);
                    assert(d[fi] == corner);
                    if fi != j0 {
                        assert(d[fi] == d[j0]);
                        assert(false);
                    }
                }
                assert forall|i: int| 0 <= i < cs2.len() implies #[trigger] self.indices@[i]
                    == first_index(dedup(cs2), cs2[i]) by {
                    if i < cs@.len() {
                        assert(self.indices@[i] == m_old.indices@[i]);
                    } else {
                        assert(cs2[i] == corner);
                    }
                }
                assert(mesh_state(*obj, *format, cs2, *self));
            } else {
                // Fresh corner: the distinct list grows by one at the end.
                assert(dedup(cs2) == d.push(corner));
                let d2 = d.push(corner);
                let n = d.len() as int;
                assert(d2.len() == n + 1);
                assert(forall|j: int| 0 <= j < n ==> d2[j] == d[j]);
                assert(d2[n] == corner);
                // Every element of the distinct list is a bounded corner.
                assert forall|j: int| 0 <= j < n implies corner_bounded(#[trigger] d[j]) by {
                    assert(d.contains(d[j]));
                    lemma_dedup_contains(cs@, d[j]);
                    let i = choose|i: int| 0 <= i < cs@.len() && cs@[i] == d[j];
                }
                // Vertices: old ones unchanged, the new one resolved.
                assert forall|j: int| 0 <= j < d2.len() implies self.vertices@[j] == spec_resolve(
                    *obj,
                    *format,
                    #[trigger] d2[j],
                ) by {
                    if j < n {
                        assert(self.vertices@[j] == m_old.vertices@[j]);
                    }
                }
                // Indices: old slots stable under the push, the new corner
                // lands on the fresh slot.
                assert forall|i: int| 0 <= i < cs2.len() implies #[trigger] self.indices@[i]
                    == first_index(d2, cs2[i]) by {
                    if i < cs@.len() {
                        lemma_first_index_push(d, corner, cs@[i]);
                        assert(d.contains(cs@[i])) by {
                            assert(cs@.contains(cs@[i]));
                            lemma_dedup_contains(cs@, cs@[i]);
                        }
                        assert(self.indices@[i] == m_old.indices@[i]);
                    } else {
                        lemma_first_index_push(d, corner, corner);
                        assert(cs2[i] == corner);
                    }
                }
                // Map, forward direction.
                assert forall|j: int| 0 <= j < d2.len() implies self.map@.contains_key(
                    corner_key(#[trigger] d2[j]),
                ) && self.map@[corner_key(d2[j])] == j by {
                    if j < n {
                        assert(m_old.map@.contains_key(corner_key(d[j])));
                        if corner_key(d[j]) == k {
                            lemma_corner_key_injective(d[j], corner);
                            assert(d.contains(corner));
                            assert(false);
                        }
                    }
                }
                // Map, backward direction.
                assert forall|kk: u128| #[trigger] self.map@.dom().contains(kk) implies 0
                    <= self.map@[kk] < d2.len() && corner_key(d2[self.map@[kk] as int]) == kk by {
                    if kk == k {
                        assert(self.map@[kk] == n);
                    } else {
                        assert(m_old.map@.dom().contains(kk));
                        assert(self.map@[kk] == m_old.map@[kk]);
                    }
                }
                // The map grew by exactly the fresh key.
                assert(self.map@.dom() =~= m_old.map@.dom().insert(k));
                assert(self.map@.dom().len() == d2.len()) by {
                    vstd::set::axiom_set_insert_len(m_old.map@.dom(), k);
                    vstd::set::axiom_set_insert_finite(m_old.map@.dom(), k);
                }
                // Bounds fold one more position.
                assert(d2.drop_last() =~= d);
                assert(bounds_min(*obj, d2) == vmin(
                    bounds_min(*obj, d),
                    obj.vertices@[corner.position as int],
                ));
                assert(bounds_max(*obj, d2) == vmax(
                    bounds_max(*obj, d),
                    obj.vertices@[corner.position as int],
                ));
                assert(mesh_state(*obj, *format, cs2, *self));
            }
        }
    }

    /// Convert a face-vertex model into an indexed, deduplicated mesh.
    ///
    /// A primitive that is not a triangle is fatal: no partial mesh is
    /// returned. Requesting tangent generation on a model where some
    /// corner lacks a normal or a texture coordinate is a precondition
    /// failure, reported before any vertex is built. On success the mesh
    /// holds one vertex per distinct corner in first-seen order, one slot
    /// index per corner reference, the corner-to-slot map, the layout, and
    /// the bounds of the created positions.
    ///
    /// Tangent vectors themselves are derived floating-point data; the
    /// caller computes them from the returned mesh and installs them with
    /// `set_tangents`. Here `generate_tangents` reserves the tangent's
    /// slot in the layout and checks its preconditions.
    pub fn from_object(obj: &Object, generate_tangents: bool) -> (r: Result<Mesh, MeshError>)
        requires
            obj.wf(),
        ensures
            match r {
                Result::Ok(m) => !obj.has_non_triangle() && (generate_tangents
                    ==> tangent_inputs_complete(*obj)) && mesh_built(*obj, generate_tangents, m)
                    && m.indices@.len() == 3 * obj.primitives@.len(),
                Result::Err(e) => match e {
                    MeshError::UnsupportedPrimitive => obj.has_non_triangle(),
                    MeshError::MissingRequiredAttribute => !obj.has_non_triangle()
                        && generate_tangents && !tangent_inputs_complete(*obj),
                },
            },
    {
        let np = obj.primitives.len();

        // Any primitive that is not a triangle aborts the conversion.
        let mut p: usize = 0;
        while p < np
            invariant
                0 <= p <= np,
                np == obj.primitives.len(),
                forall|j: int| 0 <= j < p ==> (#[trigger] obj.primitives@[j]).is_triangle(),
            decreases np - p,
        {
            match obj.primitives[p] {
                Primitive::Triangle(_, _, _) => {},
                _ => {
                    proof {
                        assert(!obj.primitives@[p as int].is_triangle());
                    }
                    return Result::Err(MeshError::UnsupportedPrimitive);
                },
            }
            p += 1;
        }

        let format = VertexFieldOffsets::from_object(obj, generate_tangents);

        // The tangent pass reads a normal and a texture coordinate from
        // every vertex; incomplete data is a precondition failure.
        if generate_tangents && (format.normal.is_none() || format.tex0.is_none()) {
            return Result::Err(MeshError::MissingRequiredAttribute);
        }

        let mut mesh = Mesh {
            vertices: Vec::new(),
            indices: Vec::new(),
            map: HashMap::new(),
            format,
            min: Vec3 { x: INF_BITS, y: INF_BITS, z: INF_BITS },
            max: Vec3 { x: NEG_INF_BITS, y: NEG_INF_BITS, z: NEG_INF_BITS },
        };
        let ghost mut cs: Seq<CornerIndex> = Seq::empty();
        proof {
            assert(obj.primitives@.take(0) =~= Seq::<Primitive>::empty());
            assert(dedup(cs) =~= Seq::<CornerIndex>::empty());
            assert(mesh.map@.dom() =~= Set::<u128>::empty());
            assert(mesh_state(*obj, format, cs, mesh));
        }

        let mut p: usize = 0;
        while p < np
            invariant
                0 <= p <= np,
                np == obj.primitives.len(),
                obj.wf(),
                obj.all_triangles(),
                format == spec_layout(*obj, generate_tangents),
                cs == corners_of(obj.primitives@.take(p as int)),
                mesh_state(*obj, format, cs, mesh),
            decreases np - p,
        {
            match obj.primitives[p] {
                Primitive::Triangle(v1, v2, v3) => {
                    proof {
                        assert(primitive_in_bounds(obj.primitives@[p as int], *obj));
                        assert forall|i: int| 0 <= i < cs.len() implies corner_bounded(
                            #[trigger] cs[i],
                        ) by {}
                    }
                    mesh.add_corner_step(v1, obj, &format, Ghost(cs));
                    proof {
                        cs = cs.push(v1);
                        assert forall|i: int| 0 <= i < cs.len() implies corner_bounded(
                            #[trigger] cs[i],
                        ) by {}
                    }
                    mesh.add_corner_step(v2, obj, &format, Ghost(cs));
                    proof {
                        cs = cs.push(v2);
                        assert forall|i: int| 0 <= i < cs.len() implies corner_bounded(
                            #[trigger] cs[i],
                        ) by {}
                    }
                    mesh.add_corner_step(v3, obj, &format, Ghost(cs));
                    proof {
                        cs = cs.push(v3);
                        lemma_corners_take_step(obj.primitives@, p as int);
                        assert(obj.primitives@[p as int].corners() == seq![v1, v2, v3]);
                        assert(corners_of(obj.primitives@.take(p as int + 1)) =~= cs);
                    }
                },
                _ => {
                    proof {
                        assert(obj.primitives@[p as int].is_triangle());
                        assert(false);
                    }
                },
            }
            p += 1;
        }

        proof {
            assert(obj.primitives@.take(np as int) =~= obj.primitives@);
            let d = dedup(cs);
            assert forall|i: int| 0 <= i < mesh.indices@.len() implies 0 <= #[trigger] mesh.indices@[i]
                < mesh.vertices@.len() by {
                assert(cs.contains(cs[i]));
                lemma_dedup_contains(cs, cs[i]);
                lemma_first_index_spec(d, cs[i]);
            }
            lemma_corners_len(obj.primitives@);
        }
        Result::Ok(mesh)
    }

    /// Width in bytes of an index in the packed output, chosen from the
    /// vertex count.
    pub fn get_index_size(&self) -> (r: usize)
        ensures
            r == spec_index_size(self.vertices@.len()),
    {
        let n = self.vertices.len();
        if n <= 256 {
            1
        } else if n <= 65536 {
            2
        } else {
            4
        }
    }

    /// Install one derived tangent per vertex: slot `j` of `tangents`
    /// becomes the tangent vector and handedness of vertex `j`. Everything
    /// else about the mesh is untouched.
    pub fn set_tangents(&mut self, tangents: &Vec<Tangent>)
        requires
            tangents@.len() == old(self).vertices@.len(),
        ensures
            final(self).vertices@.len() == old(self).vertices@.len(),
            forall|j: int|
                0 <= j < old(self).vertices@.len() ==> #[trigger] final(self).vertices@[j]
                    == (GPUVertex {
                    tangent: Some(tangents@[j].vector),
                    tangent_handedness: tangents@[j].handedness,
                    ..old(self).vertices@[j]
                }),
            final(self).indices == old(self).indices,
            final(self).map@ == old(self).map@,
            final(self).format == old(self).format,
            final(self).min == old(self).min,
            final(self).max == old(self).max,
    {
        let n = self.vertices.len();
        let mut j: usize = 0;
        while j < n
            invariant
                0 <= j <= n,
                n == self.vertices@.len(),
                n == old(self).vertices@.len(),
                tangents@.len() == n,
                forall|i: int|
                    0 <= i < j ==> #[trigger] self.vertices@[i] == (GPUVertex {
                        tangent: Some(tangents@[i].vector),
                        tangent_handedness: tangents@[i].handedness,
                        ..old(self).vertices@[i]
                    }),
                forall|i: int| j <= i < n ==> #[trigger] self.vertices@[i] == old(self).vertices@[i],
                self.indices == old(self).indices,
                self.map@ == old(self).map@,
                self.format == old(self).format,
                self.min == old(self).min,
                self.max == old(self).max,
            decreases n - j,
        {
            let t = tangents[j];
            let mut v = self.vertices[j];
            v.tangent = Some(t.vector);
            v.tangent_handedness = t.handedness;
            self.vertices[j] = v;
            j += 1;
        }
    }
}

} // verus!
