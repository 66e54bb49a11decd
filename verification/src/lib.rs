//! Navigation and tile-addressing engine for a tiling of the hyperbolic
//! plane in the Minkowski hyperboloid model.
//!
//! The engine is built from four layers:
//! - [`permutation`]: the symmetry-group bookkeeping — bijections on the nine
//!   face labels of a tiling cell, their Lehmer-code ranks, and the canonical
//!   identifier of a rotation-equivalence class;
//! - [`matrix`]: exact Lorentz transforms — every element of the tiling group
//!   maps to a 4×4 matrix whose entries lie in the ring of integers extended
//!   by √3, so the matrix algebra is carried out in exact integer arithmetic;
//! - [`group`] and [`tile`]: group elements (a permutation paired with its
//!   matrix and a cached canonical id) and the tiles they address;
//! - [`field`]: the active working set of tiles — neighbor discovery,
//!   culling by distance band, and the re-basing pass that relabels every
//!   tile relative to a new origin.
//!
//! All distance measurement is left to the caller: the engine takes the
//! outcome of those comparisons as plain boolean verdicts and guarantees the
//! bookkeeping that follows from them.

pub mod field;
pub mod group;
pub mod mapdata;
pub mod matrix;
pub mod permutation;
pub mod tile;
