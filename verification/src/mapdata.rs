//! Geometry supplied per tile identifier.
//!
//! The tiles of the present tiling all share one fundamental-domain mesh —
//! a quad spanning the four corner points of the cell, each vertex stored
//! as four position floats followed by four color floats, with 32-bit
//! little-endian triangle indices.  The interface still takes the tile's
//! canonical identifier so that a future tiling can vary the mesh per
//! class.

use vstd::prelude::*;

verus! {

/// Vertex records of the fundamental-domain quad: four vertices of
/// 32 bytes each (position x, y, z, w and color r, g, b, a as
/// little-endian 32-bit floats).
pub const TILE_VERTICES: [u8; 128] = [
    0, 0, 128, 63, 0, 0, 128, 63, 0, 0, 0, 0, 215, 179, 221, 63,
    0, 0, 128, 63, 0, 0, 128, 63, 0, 0, 128, 63, 0, 0, 128, 63,
    0, 0, 128, 63, 0, 0, 128, 191, 0, 0, 0, 0, 215, 179, 221, 63,
    0, 0, 128, 63, 0, 0, 128, 63, 0, 0, 128, 63, 0, 0, 128, 63,
    0, 0, 128, 191, 0, 0, 128, 191, 0, 0, 0, 0, 215, 179, 221, 63,
    0, 0, 128, 63, 0, 0, 128, 63, 0, 0, 128, 63, 0, 0, 128, 63,
    0, 0, 128, 191, 0, 0, 128, 63, 0, 0, 0, 0, 215, 179, 221, 63,
    0, 0, 128, 63, 0, 0, 128, 63, 0, 0, 128, 63, 0, 0, 128, 63,
];

/// Index records of the fundamental-domain quad: two triangles as
/// little-endian 32-bit indices.
pub const TILE_INDICES: [u8; 24] = [
    0, 0, 0, 0, 1, 0, 0, 0, 2, 0, 0, 0, 0, 0, 0, 0,
    2, 0, 0, 0, 3, 0, 0, 0,
];

/// The immutable geometry for the tile class `id`: vertex records and
/// index records, valid for the whole process lifetime.  The present
/// tiling uses one mesh for every class, so the result does not depend on
/// `id`.
pub fn get_map_data(id: u32) -> (r: (&'static [u8], &'static [u8]))
    ensures
        r.0@ == TILE_VERTICES@,
        r.1@ == TILE_INDICES@,
{
    (TILE_VERTICES.as_slice(), TILE_INDICES.as_slice())
}

} // verus!
