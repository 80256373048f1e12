//! Conversion of a face-vertex 3D model into a deduplicated, GPU-ready mesh:
//! corner deduplication, attribute-layout computation, axis-aligned bounds
//! tracking, and packing of vertex attributes into compact binary encodings.
//!
//! Scalar values (positions, normals, texture coordinates) are carried as
//! IEEE-754 bit patterns (`u64` for double precision), and every numeric
//! operation the library performs on them — ordering, rounding, format
//! conversion, quantization — is implemented and verified as integer
//! arithmetic on those patterns.

pub mod dedup;
pub mod fbits;
pub mod fops;
pub mod geometry;
pub mod laws;
pub mod layout;
pub mod mesh;
pub mod model;
pub mod pack;
pub mod round;
