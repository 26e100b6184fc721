//! CPU-side visibility pre-filter for voxel rendering.
//!
//! `pos` packs a bounded 3D lattice coordinate into a single 64-bit word and
//! derives face neighbors; `culling` selects, out of a set of occupied
//! coordinates, those with at least one face open to the outside.

pub mod culling;
pub mod pos;
