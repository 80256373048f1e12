//! The face-vertex model that the converter consumes: three independently
//! indexed pools (positions, normals, texture coordinates) and a list of
//! primitives whose corners pick one entry from each pool.
//!
//! Scalar components are IEEE-754 double-precision bit patterns (`u64`),
//! as laid out in `fbits`.

use vstd::prelude::*;

verus! {

/// A 3-component record (a position or a direction); each field is the
/// bit pattern of a double.
#[derive(Clone, Copy, Debug, PartialEq, Eq)]
pub struct Vec3 {
    pub x: u64,
    pub y: u64,
    pub z: u64,
}

/// A 2-component texture coordinate; each field is the bit pattern of a
/// double.
#[derive(Clone, Copy, Debug, PartialEq, Eq)]
pub struct TexCoord {
    pub u: u64,
    pub v: u64,
}

/// One triangle corner's attribute selection: a position index and
/// optional texture-coordinate and normal indices, each into its own pool.
/// Structural equality over the triple is the deduplication key.
#[derive(Clone, Copy, Debug, PartialEq, Eq)]
pub struct CornerIndex {
    pub position: usize,
    pub texcoord: Option<usize>,
    pub normal: Option<usize>,
}

/// A primitive of the source geometry. Only triangles are supported by
/// the converter; anything else is a fatal input error.
#[derive(Clone, Copy, Debug)]
pub enum Primitive {
    Point(CornerIndex),
    Line(CornerIndex, CornerIndex),
    Triangle(CornerIndex, CornerIndex, CornerIndex),
}

/// A parsed model: the three attribute pools and the primitive list.
#[derive(Clone, Debug)]
pub struct Object {
    pub vertices: Vec<Vec3>,
    pub tex_vertices: Vec<TexCoord>,
    pub normals: Vec<Vec3>,
    pub primitives: Vec<Primitive>,
}

/// Largest admissible pool length. Indices into the pools then fit in 32
/// bits, which is what lets a corner be interned as one wide integer key
/// (and is no loss: the packed output addresses vertices with at most
/// 4-byte indices).
pub const MAX_POOL_LEN: usize = 0xFFFF_FFFF;

impl Primitive {
    /// The primitive is a triangle.
    pub open spec fn is_triangle(self) -> bool {
        matches!(self, Primitive::Triangle(_, _, _))
    }

    /// The corners the primitive contributes to the corner stream.
    /// Only triangles contribute; the converter rejects everything else
    /// before reading corners.
    pub open spec fn corners(self) -> Seq<CornerIndex> {
        match self {
            Primitive::Triangle(v1, v2, v3) => seq![v1, v2, v3],
            _ => Seq::empty(),
        }
    }
}

/// The corner indices name entries that exist in the pools of `obj`.
pub open spec fn corner_in_bounds(c: CornerIndex, obj: Object) -> bool {
    &&& c.position < obj.vertices.len()
    &&& match c.texcoord {
        Some(i) => i < obj.tex_vertices.len(),
        None => true,
    }
    &&& match c.normal {
        Some(i) => i < obj.normals.len(),
        None => true,
    }
}

/// Every corner of the primitive is in bounds.
pub open spec fn primitive_in_bounds(p: Primitive, obj: Object) -> bool {
    match p {
        Primitive::Point(v1) => corner_in_bounds(v1, obj),
        Primitive::Line(v1, v2) => corner_in_bounds(v1, obj) && corner_in_bounds(v2, obj),
        Primitive::Triangle(v1, v2, v3) => corner_in_bounds(v1, obj) && corner_in_bounds(v2, obj)
            && corner_in_bounds(v3, obj),
    }
}

impl Object {
    /// Well-formedness of a model: pools short enough that indices fit in
    /// 32 bits, and every corner of every primitive in bounds.
    pub open spec fn wf(self) -> bool {
        &&& self.vertices.len() <= MAX_POOL_LEN
        &&& self.tex_vertices.len() <= MAX_POOL_LEN
        &&& self.normals.len() <= MAX_POOL_LEN
        &&& forall|i: int|
            0 <= i < self.primitives.len() ==> primitive_in_bounds(
                #[trigger] self.primitives[i],
                self,
            )
    }

    /// Every primitive is a triangle.
    pub open spec fn all_triangles(self) -> bool {
        forall|i: int|
            0 <= i < self.primitives.len() ==> (#[trigger] self.primitives[i]).is_triangle()
    }

    /// Some primitive is not a triangle.
    pub open spec fn has_non_triangle(self) -> bool {
        !self.all_triangles()
    }

    /// Runtime well-formedness check, for callers that receive a model
    /// from outside and must establish `wf` before converting it.
    pub fn check_wf(&self) -> (r: bool)
        ensures
            r == self.wf(),
    {
        if self.vertices.len() > MAX_POOL_LEN || self.tex_vertices.len() > MAX_POOL_LEN
            || self.normals.len() > MAX_POOL_LEN {
            return false;
        }
        let n = self.primitives.len();
        let mut i: usize = 0;
        while i < n
            invariant
                0 <= i <= n,
                n == self.primitives.len(),
                forall|j: int|
                    0 <= j < i ==> primitive_in_bounds(#[trigger] self.primitives[j], *self),
            decreases n - i,
        {
            let ok = match self.primitives[i] {
                Primitive::Point(v1) => self.corner_ok(&v1),
                Primitive::Line(v1, v2) => self.corner_ok(&v1) && self.corner_ok(&v2),
                Primitive::Triangle(v1, v2, v3) => self.corner_ok(&v1) && self.corner_ok(&v2)
                    && self.corner_ok(&v3),
            };
            if !ok {
                return false;
            }
            i += 1;
        }
        true
    }

    /// One corner's indices are in bounds for this model's pools.
    pub fn corner_ok(&self, c: &CornerIndex) -> (r: bool)
        ensures
            r == corner_in_bounds(*c, *self),
    {
        if c.position >= self.vertices.len() {
            return false;
        }
        if let Some(i) = c.texcoord {
            if i >= self.tex_vertices.len() {
                return false;
            }
        }
        if let Some(i) = c.normal {
            if i >= self.normals.len() {
                return false;
            }
        }
        true
    }
}

/// The corner stream of a primitive prefix: three corners per triangle,
/// in traversal order.
pub open spec fn corners_of(prims: Seq<Primitive>) -> Seq<CornerIndex>
    decreases prims.len(),
{
    if prims.len() == 0 {
        Seq::empty()
    } else {
        corners_of(prims.drop_last()) + prims.last().corners()
    }
}

/// The full corner stream of a model.
pub open spec fn corner_seq(obj: Object) -> Seq<CornerIndex> {
    corners_of(obj.primitives@)
}

/// Processing one more primitive appends its corners to the stream.
pub proof fn lemma_corners_take_step(prims: Seq<Primitive>, p: int)
    requires
        0 <= p < prims.len(),
    ensures
        corners_of(prims.take(p + 1)) == corners_of(prims.take(p)) + prims[p].corners(),
{
    assert(prims.take(p + 1).drop_last() =~= prims.take(p));
    assert(prims.take(p + 1).last() == prims[p]);
}

/// A pure-triangle primitive list contributes exactly three corners per
/// primitive.
pub proof fn lemma_corners_len(prims: Seq<Primitive>)
    requires
        forall|i: int| 0 <= i < prims.len() ==> (#[trigger] prims[i]).is_triangle(),
    ensures
        corners_of(prims).len() == 3 * prims.len(),
    decreases prims.len(),
{
    if prims.len() > 0 {
        assert forall|i: int|
            0 <= i < prims.drop_last().len() implies (#[trigger] prims.drop_last()[
            i]).is_triangle() by {
            assert(prims.drop_last()[i] == prims[i]);
        }
        lemma_corners_len(prims.drop_last());
        assert(prims[prims.len() - 1].is_triangle());
        assert(prims.last().corners().len() == 3);
    }
}

} // verus!
