//! A verified parser for a subset of the Wavefront OBJ text format: named
//! objects holding vertex positions, normals, texture coordinates, a
//! smoothing-group tag, and polygonal faces that reference those arrays by
//! zero-based index.

pub mod error;
pub mod laws;
pub mod num;
pub mod obj;
pub mod text;
