//! Voxel chunks and their surface meshes, packed into shared GPU-style buffers.
//!
//! - `voxel`: chunk storage, the sparse map of chunks, and the save format.
//! - `mesher`: the visible faces of a chunk as vertices and triangle indices.
//! - `mesh`: the allocator that places sub-meshes in one shared vertex buffer and one
//!   shared index buffer.
//! - `instancing`: draw calls read from the current placement of each sub-mesh.
//! - `line`, `math`, `layers`, `volume`: lattice walks, flat indexing and raw voxel data.

pub mod instancing;
pub mod layers;
pub mod line;
pub mod math;
pub mod mesh;
pub mod mesher;
pub mod volume;
pub mod voxel;
