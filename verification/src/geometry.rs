//! The structured output form: flat single-precision attribute arrays
//! plus a 16-bit index list, and the packed index encoding at the width
//! the vertex count selects.

use crate::fops::{f64_to_f32, f64_to_f32_spec};
use crate::mesh::{spec_index_size, GPUVertex, Mesh};
use crate::pack::{
    le16, le32, packed_vertices_bytes, vertex_packable, write_u16_le, write_u32_le,
};
use vstd::prelude::*;

verus! {

/// Flat geometry arrays for typed consumers. The `u32`/`u16` entries are
/// single-precision bit patterns; positions and normals hold three
/// entries per vertex.
#[derive(Debug)]
pub struct Geometry {
    pub vertices: Vec<u32>,
    pub normals: Vec<u32>,
    pub indices: Vec<u16>,
}

/// The flattened single-precision positions of the vertex table.
pub open spec fn geo_vertices(vs: Seq<GPUVertex>) -> Seq<u32>
    decreases vs.len(),
{
    if vs.len() == 0 {
        Seq::empty()
    } else {
        geo_vertices(vs.drop_last()) + seq![
            f64_to_f32_spec(vs.last().pos.x),
            f64_to_f32_spec(vs.last().pos.y),
            f64_to_f32_spec(vs.last().pos.z),
        ]
    }
}

/// The flattened single-precision normals of the vertices that carry
/// one.
pub open spec fn geo_normals(vs: Seq<GPUVertex>) -> Seq<u32>
    decreases vs.len(),
{
    if vs.len() == 0 {
        Seq::empty()
    } else {
        geo_normals(vs.drop_last()) + (match vs.last().normal {
            Some(n) => seq![f64_to_f32_spec(n.x), f64_to_f32_spec(n.y), f64_to_f32_spec(n.z)],
            None => Seq::empty(),
        })
    }
}

/// The index list narrowed to 16 bits (modulo, as the narrowing cast
/// behaves).
pub open spec fn geo_indices(indices: Seq<usize>) -> Seq<u16>
    decreases indices.len(),
{
    if indices.len() == 0 {
        Seq::empty()
    } else {
        geo_indices(indices.drop_last()).push((indices.last() % 0x10000) as u16)
    }
}

/// One index encoded little-endian at the given byte width (modulo the
/// width's range).
pub open spec fn index_bytes(idx: usize, width: usize) -> Seq<u8> {
    if width == 1 {
        seq![(idx % 256) as u8]
    } else if width == 2 {
        le16((idx % 0x10000) as u16)
    } else {
        le32(((idx as int) % 0x1_0000_0000) as u32)
    }
}

/// The whole index list encoded at one width, little-endian.
pub open spec fn packed_index_bytes(indices: Seq<usize>, width: usize) -> Seq<u8>
    decreases indices.len(),
{
    if indices.len() == 0 {
        Seq::empty()
    } else {
        packed_index_bytes(indices.drop_last(), width) + index_bytes(indices.last(), width)
    }
}

/// The low 8 bits of an index, as the narrowing cast computes them.
fn trunc8(idx: usize) -> (r: u8)
    ensures
        r as int == (idx as int) % 256,
{
    let x: u64 = idx as u64;
    proof {
        assert(x as u8 == (x % 256) as u8) by (bit_vector);
    }
    #[verifier::truncate] (x as u8)
}

/// The low 16 bits of an index.
fn trunc16(idx: usize) -> (r: u16)
    ensures
        r as int == (idx as int) % 0x10000,
{
    let x: u64 = idx as u64;
    proof {
        assert(x as u16 == (x % 0x10000) as u16) by (bit_vector);
    }
    #[verifier::truncate] (x as u16)
}

/// The low 32 bits of an index.
fn trunc32(idx: usize) -> (r: u32)
    ensures
        r as int == (idx as int) % 0x1_0000_0000,
{
    let x: u64 = idx as u64;
    proof {
        assert(x as u32 == (x % 0x1_0000_0000) as u32) by (bit_vector);
    }
    #[verifier::truncate] (x as u32)
}

impl Mesh {
    /// The structured output: flat position and normal arrays and a
    /// 16-bit index list.
    pub fn to_geometry(&self) -> (g: Geometry)
        ensures
            g.vertices@ == geo_vertices(self.vertices@),
            g.normals@ == geo_normals(self.vertices@),
            g.indices@ == geo_indices(self.indices@),
    {
        let mut vertices: Vec<u32> = Vec::new();
        let mut normals: Vec<u32> = Vec::new();
        let mut indices: Vec<u16> = Vec::new();

        let n = self.vertices.len();
        let mut i: usize = 0;
        while i < n
            invariant
                0 <= i <= n,
                n == self.vertices@.len(),
                vertices@ == geo_vertices(self.vertices@.take(i as int)),
                normals@ == geo_normals(self.vertices@.take(i as int)),
            decreases n - i,
        {
            let v = self.vertices[i];
            vertices.push(f64_to_f32(v.pos.x));
            vertices.push(f64_to_f32(v.pos.y));
            vertices.push(f64_to_f32(v.pos.z));

            if let Some(normal) = v.normal {
                normals.push(f64_to_f32(normal.x));
                normals.push(f64_to_f32(normal.y));
                normals.push(f64_to_f32(normal.z));
            }
            proof {
                assert(self.vertices@.take(i as int + 1).drop_last() =~= self.vertices@.take(
                    i as int,
                ));
                assert(self.vertices@.take(i as int + 1).last() == self.vertices@[i as int]);
                assert(vertices@ =~= geo_vertices(self.vertices@.take(i as int + 1)));
                assert(normals@ =~= geo_normals(self.vertices@.take(i as int + 1)));
            }
            i += 1;
        }

        let m = self.indices.len();
        let mut j: usize = 0;
        while j < m
            invariant
                0 <= j <= m,
                m == self.indices@.len(),
                indices@ == geo_indices(self.indices@.take(j as int)),
            decreases m - j,
        {
            let idx = self.indices[j];
            indices.push(trunc16(idx));
            proof {
                assert(self.indices@.take(j as int + 1).drop_last() =~= self.indices@.take(
                    j as int,
                ));
                assert(self.indices@.take(j as int + 1).last() == self.indices@[j as int]);
                assert(indices@ =~= geo_indices(self.indices@.take(j as int + 1)));
            }
            j += 1;
        }
        proof {
            assert(self.vertices@.take(n as int) =~= self.vertices@);
            assert(self.indices@.take(m as int) =~= self.indices@);
        }
        Geometry { vertices, normals, indices }
    }

    /// Every vertex of the mesh can be packed: the wrap terminates on
    /// all of its texture coordinates.
    pub fn check_packable(&self) -> (r: bool)
        ensures
            r == forall|j: int|
                0 <= j < self.vertices@.len() ==> vertex_packable(#[trigger] self.vertices@[j]),
    {
        let n = self.vertices.len();
        let mut i: usize = 0;
        while i < n
            invariant
                0 <= i <= n,
                n == self.vertices@.len(),
                forall|j: int| 0 <= j < i ==> vertex_packable(#[trigger] self.vertices@[j]),
            decreases n - i,
        {
            if !self.vertices[i].check_packable() {
                return false;
            }
            i += 1;
        }
        true
    }

    /// The packed output form: one fixed-stride record per vertex, then
    /// the index list at the width the vertex count selects, all
    /// little-endian.
    pub fn to_packed_buffer(&self) -> (data: Vec<u8>)
        requires
            forall|j: int|
                0 <= j < self.vertices@.len() ==> vertex_packable(#[trigger] self.vertices@[j]),
        ensures
            data@ == packed_vertices_bytes(self.vertices@) + packed_index_bytes(
                self.indices@,
                spec_index_size(self.vertices@.len()),
            ),
    {
        let mut data: Vec<u8> = Vec::new();
        let n = self.vertices.len();
        let mut i: usize = 0;
        while i < n
            invariant
                0 <= i <= n,
                n == self.vertices@.len(),
                forall|j: int|
                    0 <= j < self.vertices@.len() ==> vertex_packable(
                        #[trigger] self.vertices@[j],
                    ),
                data@ == packed_vertices_bytes(self.vertices@.take(i as int)),
            decreases n - i,
        {
            let v = self.vertices[i];
            v.write_to(&mut data);
            proof {
                assert(self.vertices@.take(i as int + 1).drop_last() =~= self.vertices@.take(
                    i as int,
                ));
                assert(self.vertices@.take(i as int + 1).last() == self.vertices@[i as int]);
                assert(data@ =~= packed_vertices_bytes(self.vertices@.take(i as int + 1)));
            }
            i += 1;
        }
        proof {
            assert(self.vertices@.take(n as int) =~= self.vertices@);
        }
        self.write_indices(&mut data);
        data
    }

    /// Append the index list to `data`, each index little-endian at the
    /// width the vertex count selects.
    pub fn write_indices(&self, data: &mut Vec<u8>)
        ensures
            final(data)@ == old(data)@ + packed_index_bytes(
                self.indices@,
                spec_index_size(self.vertices@.len()),
            ),
    {
        let width = self.get_index_size();
        let m = self.indices.len();
        let mut j: usize = 0;
        while j < m
            invariant
                0 <= j <= m,
                m == self.indices@.len(),
                width == spec_index_size(self.vertices@.len()),
                data@ == old(data)@ + packed_index_bytes(self.indices@.take(j as int), width),
            decreases m - j,
        {
            let idx = self.indices[j];
            if width == 1 {
                data.push(trunc8(idx));
            } else if width == 2 {
                write_u16_le(data, trunc16(idx));
            } else {
                write_u32_le(data, trunc32(idx));
            }
            proof {
                assert(self.indices@.take(j as int + 1).drop_last() =~= self.indices@.take(
                    j as int,
                ));
                assert(self.indices@.take(j as int + 1).last() == self.indices@[j as int]);
                assert(data@ =~= old(data)@ + packed_index_bytes(
                    self.indices@.take(j as int + 1),
                    width,
                ));
            }
            j += 1;
        }
        proof {
            assert(self.indices@.take(m as int) =~= self.indices@);
        }
    }
}

} // verus!
