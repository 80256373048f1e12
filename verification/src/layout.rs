//! Attribute-layout computation: which optional vertex attributes are
//! present for a whole mesh, and at which byte offset each one sits inside
//! a packed vertex record.
//!
//! An optional attribute is included only when *every* corner of *every*
//! triangle supplies it; partial availability degrades the whole mesh to
//! "attribute absent". The tangent is always derived, never read, so its
//! presence is forced by the caller's flag alone.

use crate::model::{corners_of, CornerIndex, Object, Primitive};
use vstd::prelude::*;

verus! {

/// One vertex attribute of the packed record.
#[derive(Clone, Copy, Debug)]
pub enum Attribute {
    Position,
    Normal,
    Tangent,
    Tex0,
}

/// Packed size of an attribute in bytes: three 32-bit floats for the
/// position, one packed 32-bit word for a direction, two half-precision
/// floats for a texture coordinate.
pub open spec fn spec_size_of_attribute(attr: Attribute) -> usize {
    match attr {
        Attribute::Position => 12,
        Attribute::Normal => 4,
        Attribute::Tangent => 4,
        Attribute::Tex0 => 4,
    }
}

/// Packed size of an attribute in bytes.
pub fn size_of_attribute(attr: Attribute) -> (r: usize)
    ensures
        r == spec_size_of_attribute(attr),
{
    match attr {
        Attribute::Position => 12,
        Attribute::Normal => 4,
        Attribute::Tangent => 4,
        Attribute::Tex0 => 4,
    }
}

/// The corner supplies the attribute. The position is always supplied;
/// the tangent is never read from a corner.
pub open spec fn spec_has_attribute(c: CornerIndex, attr: Attribute) -> bool {
    match attr {
        Attribute::Position => true,
        Attribute::Normal => c.normal is Some,
        Attribute::Tex0 => c.texcoord is Some,
        Attribute::Tangent => false,
    }
}

/// The corner supplies the attribute.
pub fn has_attribute(c: &CornerIndex, attr: Attribute) -> (r: bool)
    ensures
        r == spec_has_attribute(*c, attr),
{
    match attr {
        Attribute::Position => true,
        Attribute::Normal => c.normal.is_some(),
        Attribute::Tex0 => c.texcoord.is_some(),
        Attribute::Tangent => false,
    }
}

/// Every corner of the triangle supplies the attribute. Meaningful only
/// for triangles; the converter rejects other primitives first.
pub open spec fn triangle_has(p: Primitive, attr: Attribute) -> bool {
    match p {
        Primitive::Triangle(v1, v2, v3) => spec_has_attribute(v1, attr) && spec_has_attribute(
            v2,
            attr,
        ) && spec_has_attribute(v3, attr),
        _ => true,
    }
}

/// Every corner of every triangle of the model supplies the attribute.
pub open spec fn spec_has_all(obj: Object, attr: Attribute) -> bool {
    forall|i: int|
        0 <= i < obj.primitives.len() ==> triangle_has(#[trigger] obj.primitives[i], attr)
}

/// Every corner of every triangle supplies the attribute.
///
/// A non-triangle primitive aborts the whole conversion, so that input
/// is excluded here; the converter reports it as an error before asking
/// about attributes.
pub fn has_all(obj: &Object, attr: Attribute) -> (r: bool)
    requires
        obj.all_triangles(),
    ensures
        r == spec_has_all(*obj, attr),
{
    let n = obj.primitives.len();
    let mut i: usize = 0;
    while i < n
        invariant
            0 <= i <= n,
            n == obj.primitives.len(),
            obj.all_triangles(),
            forall|j: int| 0 <= j < i ==> triangle_has(#[trigger] obj.primitives[j], attr),
        decreases n - i,
    {
        match obj.primitives[i] {
            Primitive::Triangle(v1, v2, v3) => {
                if !has_attribute(&v1, attr) || !has_attribute(&v2, attr) || !has_attribute(
                    &v3,
                    attr,
                ) {
                    return false;
                }
            },
            _ => {
                proof {
                    assert(obj.primitives[i as int].is_triangle());
                }
                // unreachable: every primitive is a triangle
                return false;
            },
        }
        i += 1;
    }
    true
}

/// When every triangle supplies the attribute, so does every corner of
/// the flattened corner stream.
pub proof fn lemma_has_all_stream(prims: Seq<Primitive>, attr: Attribute)
    requires
        forall|i: int| 0 <= i < prims.len() ==> triangle_has(#[trigger] prims[i], attr),
    ensures
        forall|i: int|
            0 <= i < corners_of(prims).len() ==> spec_has_attribute(
                #[trigger] corners_of(prims)[i],
                attr,
            ),
    decreases prims.len(),
{
    if prims.len() > 0 {
        assert forall|i: int|
            0 <= i < prims.drop_last().len() implies triangle_has(
            #[trigger] prims.drop_last()[i],
            attr,
        ) by {
            assert(prims.drop_last()[i] == prims[i]);
        }
        lemma_has_all_stream(prims.drop_last(), attr);
        let pre = corners_of(prims.drop_last());
        assert(triangle_has(prims[prims.len() - 1], attr));
        assert forall|i: int|
            0 <= i < corners_of(prims).len() implies spec_has_attribute(
            #[trigger] corners_of(prims)[i],
            attr,
        ) by {
            if i < pre.len() {
                assert(corners_of(prims)[i] == pre[i]);
            } else {
                assert(corners_of(prims)[i] == prims.last().corners()[i - pre.len()]);
            }
        }
    }
}

/// If every triangle corner supplies `attr`, claim the next offset and
/// advance it by the attribute's size; otherwise leave the cursor alone.
pub fn get_offset(obj: &Object, attr: Attribute, offset: &mut usize) -> (r: Option<usize>)
    requires
        obj.all_triangles(),
        *old(offset) <= 100,
    ensures
        r == (if spec_has_all(*obj, attr) {
            Some(*old(offset))
        } else {
            None::<usize>
        }),
        *final(offset) == if spec_has_all(*obj, attr) {
            *old(offset) + spec_size_of_attribute(attr)
        } else {
            *old(offset) as int
        },
{
    let orig_offs = *offset;
    if has_all(obj, attr) {
        *offset += size_of_attribute(attr);
        return Some(orig_offs);
    }
    None
}

/// The byte offsets of the optional attributes within a packed vertex
/// record, or `None` for each attribute the mesh does not carry. The
/// position is always present at offset 0 with size 12.
#[derive(Clone, Copy, Debug, PartialEq, Eq)]
pub struct VertexFieldOffsets {
    pub normal: Option<usize>,
    pub tangent: Option<usize>,
    pub tex0: Option<usize>,
}

/// The layout a model gets: attributes claim offsets in the fixed priority
/// order normal, tangent, texture coordinate, starting after the 12-byte
/// position.
pub open spec fn spec_layout(obj: Object, with_tangent: bool) -> VertexFieldOffsets {
    let normal = if spec_has_all(obj, Attribute::Normal) {
        Some(12usize)
    } else {
        None::<usize>
    };
    let after_normal: usize = if normal is Some {
        16usize
    } else {
        12usize
    };
    let tangent = if with_tangent {
        Some(after_normal)
    } else {
        None::<usize>
    };
    let after_tangent: usize = if with_tangent {
        (after_normal + 4) as usize
    } else {
        after_normal
    };
    let tex0 = if spec_has_all(obj, Attribute::Tex0) {
        Some(after_tangent)
    } else {
        None::<usize>
    };
    VertexFieldOffsets { normal, tangent, tex0 }
}

/// Total packed size of one vertex record under this layout.
pub open spec fn spec_stride(fmt: VertexFieldOffsets) -> int {
    12 + (if fmt.normal is Some {
        4int
    } else {
        0int
    }) + (if fmt.tangent is Some {
        4int
    } else {
        0int
    }) + (if fmt.tex0 is Some {
        4int
    } else {
        0int
    })
}

impl VertexFieldOffsets {
    /// Compute the layout of a model: one pass per optional attribute,
    /// each claiming the next offset when universally present.
    pub fn from_object(obj: &Object, with_tangent: bool) -> (r: VertexFieldOffsets)
        requires
            obj.all_triangles(),
        ensures
            r == spec_layout(*obj, with_tangent),
    {
        let mut offset = size_of_attribute(Attribute::Position);

        let normal = get_offset(obj, Attribute::Normal, &mut offset);
        let tangent = if with_tangent {
            let orig_offset = offset;
            offset += size_of_attribute(Attribute::Tangent);
            Some(orig_offset)
        } else {
            None
        };
        VertexFieldOffsets { normal, tangent, tex0: get_offset(obj, Attribute::Tex0, &mut offset) }
    }

    /// Total packed size of one vertex record.
    pub fn stride(&self) -> (r: usize)
        ensures
            r == spec_stride(*self),
    {
        let mut s: usize = 12;
        if self.normal.is_some() {
            s += 4;
        }
        if self.tangent.is_some() {
            s += 4;
        }
        if self.tex0.is_some() {
            s += 4;
        }
        s
    }
}

} // verus!
