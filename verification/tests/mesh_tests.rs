//! Conversion scenarios: deduplication, layout decisions, the error
//! taxonomy, bounds, and the structured output.

use gpumesh::layout::VertexFieldOffsets;
use gpumesh::mesh::{GPUVertex, Mesh, MeshError, Tangent};
use gpumesh::model::{CornerIndex, Object, Primitive, TexCoord, Vec3};
use std::collections::HashMap;

fn v3(x: f64, y: f64, z: f64) -> Vec3 {
    Vec3 { x: x.to_bits(), y: y.to_bits(), z: z.to_bits() }
}

fn uv(u: f64, v: f64) -> TexCoord {
    TexCoord { u: u.to_bits(), v: v.to_bits() }
}

fn corner(p: usize, t: Option<usize>, n: Option<usize>) -> CornerIndex {
    CornerIndex { position: p, texcoord: t, normal: n }
}

/// A unit quad in the xy-plane: 4 positions, one normal, 4 texcoords,
/// two triangles sharing the diagonal corners.
fn quad() -> Object {
    Object {
        vertices: vec![
            v3(0.0, 0.0, 0.0),
            v3(1.0, 0.0, 0.0),
            v3(1.0, 1.0, 0.0),
            v3(0.0, 1.0, 0.0),
        ],
        tex_vertices: vec![uv(0.0, 0.0), uv(1.0, 0.0), uv(1.0, 1.0), uv(0.0, 1.0)],
        normals: vec![v3(0.0, 0.0, 1.0)],
        primitives: vec![
            Primitive::Triangle(
                corner(0, Some(0), Some(0)),
                corner(1, Some(1), Some(0)),
                corner(2, Some(2), Some(0)),
            ),
            Primitive::Triangle(
                corner(0, Some(0), Some(0)),
                corner(2, Some(2), Some(0)),
                corner(3, Some(3), Some(0)),
            ),
        ],
    }
}

#[test]
fn quad_dedups_shared_corners() {
    let obj = quad();
    assert!(obj.check_wf());
    let mesh = Mesh::from_object(&obj, false).unwrap();
    assert_eq!(mesh.vertices.len(), 4);
    assert_eq!(mesh.indices.len(), 6);
    assert_eq!(mesh.indices, vec![0, 1, 2, 0, 2, 3]);
    assert_eq!(mesh.map.len(), 4);
}

#[test]
fn distinct_corners_emit_every_corner() {
    // Two triangles with six pairwise distinct corners: no dedup occurs.
    let obj = Object {
        vertices: vec![
            v3(0.0, 0.0, 0.0),
            v3(1.0, 0.0, 0.0),
            v3(0.0, 1.0, 0.0),
            v3(0.0, 0.0, 1.0),
            v3(2.0, 0.0, 0.0),
            v3(0.0, 2.0, 0.0),
        ],
        tex_vertices: vec![],
        normals: vec![],
        primitives: vec![
            Primitive::Triangle(
                corner(0, None, None),
                corner(1, None, None),
                corner(2, None, None),
            ),
            Primitive::Triangle(
                corner(3, None, None),
                corner(4, None, None),
                corner(5, None, None),
            ),
        ],
    };
    assert!(obj.check_wf());
    let mesh = Mesh::from_object(&obj, false).unwrap();
    assert_eq!(mesh.vertices.len(), 6);
    assert_eq!(mesh.indices.len(), 6);
    assert_eq!(mesh.indices, vec![0, 1, 2, 3, 4, 5]);
}

#[test]
fn repeated_triangle_shrinks_vertex_table() {
    // The second triangle reuses all corners of the first.
    let obj = Object {
        vertices: vec![v3(0.0, 0.0, 0.0), v3(1.0, 0.0, 0.0), v3(0.0, 1.0, 0.0)],
        tex_vertices: vec![],
        normals: vec![],
        primitives: vec![
            Primitive::Triangle(
                corner(0, None, None),
                corner(1, None, None),
                corner(2, None, None),
            ),
            Primitive::Triangle(
                corner(2, None, None),
                corner(1, None, None),
                corner(0, None, None),
            ),
        ],
    };
    let mesh = Mesh::from_object(&obj, false).unwrap();
    assert!(mesh.vertices.len() < 6);
    assert_eq!(mesh.vertices.len(), 3);
    assert_eq!(mesh.map.len(), mesh.vertices.len());
    assert_eq!(mesh.indices, vec![0, 1, 2, 2, 1, 0]);
}

#[test]
fn repeated_corner_maps_to_same_slot() {
    let obj = quad();
    let mesh = Mesh::from_object(&obj, false).unwrap();
    // Corner (0, Some(0), Some(0)) appears at stream positions 0 and 3,
    // corner (2, Some(2), Some(0)) at positions 2 and 4.
    assert_eq!(mesh.indices[0], mesh.indices[3]);
    assert_eq!(mesh.indices[2], mesh.indices[4]);
}

#[test]
fn same_position_different_texcoord_is_a_new_vertex() {
    // Corner identity is the whole index triple, not the position alone.
    let obj = Object {
        vertices: vec![v3(0.0, 0.0, 0.0), v3(1.0, 0.0, 0.0), v3(0.0, 1.0, 0.0)],
        tex_vertices: vec![uv(0.0, 0.0), uv(0.5, 0.5)],
        normals: vec![],
        primitives: vec![
            Primitive::Triangle(
                corner(0, Some(0), None),
                corner(1, Some(0), None),
                corner(2, Some(0), None),
            ),
            Primitive::Triangle(
                corner(0, Some(1), None),
                corner(1, Some(0), None),
                corner(2, Some(0), None),
            ),
        ],
    };
    let mesh = Mesh::from_object(&obj, false).unwrap();
    assert_eq!(mesh.vertices.len(), 4);
    assert_eq!(mesh.indices, vec![0, 1, 2, 3, 1, 2]);
}

#[test]
fn partial_texcoords_drop_the_attribute_for_the_whole_mesh() {
    // Normals everywhere, texcoords only on some corners: the layout
    // keeps the normal and drops the texture coordinate entirely.
    let obj = Object {
        vertices: vec![v3(0.0, 0.0, 0.0), v3(1.0, 0.0, 0.0), v3(0.0, 1.0, 0.0)],
        tex_vertices: vec![uv(0.0, 0.0)],
        normals: vec![v3(0.0, 0.0, 1.0)],
        primitives: vec![Primitive::Triangle(
            corner(0, Some(0), Some(0)),
            corner(1, None, Some(0)),
            corner(2, Some(0), Some(0)),
        )],
    };
    let mesh = Mesh::from_object(&obj, false).unwrap();
    assert_eq!(mesh.format.normal, Some(12));
    assert_eq!(mesh.format.tex0, None);
    assert_eq!(mesh.format.tangent, None);
    // The resolved vertices then carry no texture coordinate at all.
    assert!(mesh.vertices.iter().all(|v| v.tex.is_none()));
    assert!(mesh.vertices.iter().all(|v| v.normal.is_some()));
}

#[test]
fn layout_offsets_follow_priority_order() {
    let obj = quad();
    let fmt = VertexFieldOffsets::from_object(&obj, true);
    assert_eq!(fmt.normal, Some(12));
    assert_eq!(fmt.tangent, Some(16));
    assert_eq!(fmt.tex0, Some(20));
    assert_eq!(fmt.stride(), 24);

    let fmt2 = VertexFieldOffsets::from_object(&obj, false);
    assert_eq!(fmt2.normal, Some(12));
    assert_eq!(fmt2.tangent, None);
    assert_eq!(fmt2.tex0, Some(16));
    assert_eq!(fmt2.stride(), 20);
}

#[test]
fn tangents_without_texcoords_raise_missing_attribute() {
    let obj = Object {
        vertices: vec![v3(0.0, 0.0, 0.0), v3(1.0, 0.0, 0.0), v3(0.0, 1.0, 0.0)],
        tex_vertices: vec![],
        normals: vec![v3(0.0, 0.0, 1.0)],
        primitives: vec![Primitive::Triangle(
            corner(0, None, Some(0)),
            corner(1, None, Some(0)),
            corner(2, None, Some(0)),
        )],
    };
    assert_eq!(
        Mesh::from_object(&obj, true).unwrap_err(),
        MeshError::MissingRequiredAttribute
    );
    // Without the tangent request the same model converts fine.
    assert!(Mesh::from_object(&obj, false).is_ok());
}

#[test]
fn non_triangle_primitive_aborts_the_conversion() {
    let obj = Object {
        vertices: vec![v3(0.0, 0.0, 0.0), v3(1.0, 0.0, 0.0), v3(0.0, 1.0, 0.0)],
        tex_vertices: vec![],
        normals: vec![],
        primitives: vec![
            Primitive::Triangle(
                corner(0, None, None),
                corner(1, None, None),
                corner(2, None, None),
            ),
            Primitive::Line(corner(0, None, None), corner(1, None, None)),
        ],
    };
    assert_eq!(
        Mesh::from_object(&obj, false).unwrap_err(),
        MeshError::UnsupportedPrimitive
    );
    let obj2 = Object {
        primitives: vec![Primitive::Point(corner(0, None, None))],
        ..obj
    };
    assert_eq!(
        Mesh::from_object(&obj2, true).unwrap_err(),
        MeshError::UnsupportedPrimitive
    );
}

#[test]
fn out_of_bounds_corner_fails_the_wf_check() {
    let obj = Object {
        vertices: vec![v3(0.0, 0.0, 0.0)],
        tex_vertices: vec![],
        normals: vec![],
        primitives: vec![Primitive::Triangle(
            corner(0, None, None),
            corner(1, None, None),
            corner(0, None, None),
        )],
    };
    assert!(!obj.check_wf());
}

#[test]
fn out_of_bounds_texcoord_or_normal_fails_the_wf_check() {
    let base = Object {
        vertices: vec![v3(0.0, 0.0, 0.0), v3(1.0, 0.0, 0.0), v3(0.0, 1.0, 0.0)],
        tex_vertices: vec![uv(0.0, 0.0)],
        normals: vec![v3(0.0, 0.0, 1.0)],
        primitives: vec![],
    };
    let bad_tex = Object {
        primitives: vec![Primitive::Triangle(
            corner(0, Some(1), None),
            corner(1, Some(0), None),
            corner(2, Some(0), None),
        )],
        ..base.clone()
    };
    assert!(!bad_tex.check_wf());
    let bad_normal = Object {
        primitives: vec![Primitive::Triangle(
            corner(0, None, Some(3)),
            corner(1, None, Some(0)),
            corner(2, None, Some(0)),
        )],
        ..base.clone()
    };
    assert!(!bad_normal.check_wf());
    let good = Object {
        primitives: vec![Primitive::Triangle(
            corner(0, Some(0), Some(0)),
            corner(1, Some(0), Some(0)),
            corner(2, Some(0), Some(0)),
        )],
        ..base
    };
    assert!(good.check_wf());
}

#[test]
fn bounds_track_min_and_max_corners() {
    let obj = Object {
        vertices: vec![
            v3(-2.0, 5.0, 0.25),
            v3(3.0, -1.0, 0.5),
            v3(0.0, 0.0, -7.5),
        ],
        tex_vertices: vec![],
        normals: vec![],
        primitives: vec![Primitive::Triangle(
            corner(0, None, None),
            corner(1, None, None),
            corner(2, None, None),
        )],
    };
    let mesh = Mesh::from_object(&obj, false).unwrap();
    assert_eq!(f64::from_bits(mesh.min.x), -2.0);
    assert_eq!(f64::from_bits(mesh.min.y), -1.0);
    assert_eq!(f64::from_bits(mesh.min.z), -7.5);
    assert_eq!(f64::from_bits(mesh.max.x), 3.0);
    assert_eq!(f64::from_bits(mesh.max.y), 5.0);
    assert_eq!(f64::from_bits(mesh.max.z), 0.5);
    // Every created vertex lies inside the box.
    for v in &mesh.vertices {
        for (c, lo, hi) in [
            (v.pos.x, mesh.min.x, mesh.max.x),
            (v.pos.y, mesh.min.y, mesh.max.y),
            (v.pos.z, mesh.min.z, mesh.max.z),
        ] {
            assert!(f64::from_bits(lo) <= f64::from_bits(c));
            assert!(f64::from_bits(c) <= f64::from_bits(hi));
        }
    }
}

#[test]
fn empty_model_keeps_infinite_bounds() {
    let obj = Object {
        vertices: vec![],
        tex_vertices: vec![],
        normals: vec![],
        primitives: vec![],
    };
    let mesh = Mesh::from_object(&obj, false).unwrap();
    assert_eq!(mesh.vertices.len(), 0);
    assert_eq!(mesh.indices.len(), 0);
    assert_eq!(f64::from_bits(mesh.min.x), f64::INFINITY);
    assert_eq!(f64::from_bits(mesh.max.x), f64::NEG_INFINITY);
}

fn mesh_with_n_vertices(n: usize) -> Mesh {
    let vertex = GPUVertex {
        pos: v3(0.0, 0.0, 0.0),
        normal: None,
        tangent: None,
        tangent_handedness: 0,
        tex: None,
    };
    Mesh {
        vertices: vec![vertex; n],
        indices: vec![],
        map: HashMap::new(),
        format: VertexFieldOffsets { normal: None, tangent: None, tex0: None },
        min: v3(0.0, 0.0, 0.0),
        max: v3(0.0, 0.0, 0.0),
    }
}

#[test]
fn index_width_follows_vertex_count() {
    assert_eq!(mesh_with_n_vertices(0).get_index_size(), 1);
    assert_eq!(mesh_with_n_vertices(256).get_index_size(), 1);
    assert_eq!(mesh_with_n_vertices(257).get_index_size(), 2);
    assert_eq!(mesh_with_n_vertices(65536).get_index_size(), 2);
    assert_eq!(mesh_with_n_vertices(65537).get_index_size(), 4);
}

#[test]
fn to_geometry_flattens_positions_normals_and_indices() {
    let obj = quad();
    let mesh = Mesh::from_object(&obj, false).unwrap();
    let geo = mesh.to_geometry();
    assert_eq!(geo.vertices.len(), 12);
    assert_eq!(geo.normals.len(), 12);
    assert_eq!(geo.indices, vec![0u16, 1, 2, 0, 2, 3]);
    assert_eq!(f32::from_bits(geo.vertices[0]), 0.0);
    assert_eq!(f32::from_bits(geo.vertices[3]), 1.0);
    assert_eq!(f32::from_bits(geo.vertices[7]), 1.0);
    assert_eq!(f32::from_bits(geo.normals[2]), 1.0);
}

#[test]
fn set_tangents_fills_every_slot_and_nothing_else() {
    let obj = quad();
    let mut mesh = Mesh::from_object(&obj, true).unwrap();
    assert!(mesh.vertices.iter().all(|v| v.tangent.is_none()));
    let tangents: Vec<Tangent> = (0..mesh.vertices.len())
        .map(|i| Tangent {
            vector: v3(1.0, 0.0, i as f64),
            handedness: 1.0f64.to_bits(),
        })
        .collect();
    let before = mesh.indices.clone();
    mesh.set_tangents(&tangents);
    assert_eq!(mesh.indices, before);
    for (i, v) in mesh.vertices.iter().enumerate() {
        assert_eq!(v.tangent, Some(v3(1.0, 0.0, i as f64)));
        assert_eq!(v.tangent_handedness, 1.0f64.to_bits());
        assert!(v.normal.is_some());
        assert!(v.tex.is_some());
    }
}

#[test]
fn write_indices_uses_the_selected_width() {
    let obj = quad();
    let mesh = Mesh::from_object(&obj, false).unwrap();
    let mut data = Vec::new();
    mesh.write_indices(&mut data);
    // 4 vertices: one byte per index.
    assert_eq!(data, vec![0u8, 1, 2, 0, 2, 3]);

    let mut wide = mesh_with_n_vertices(300);
    wide.indices = vec![258, 1];
    let mut data2 = Vec::new();
    wide.write_indices(&mut data2);
    // 300 vertices: two bytes per index, little-endian.
    assert_eq!(data2, vec![2u8, 1, 1, 0]);
}
