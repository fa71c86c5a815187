//! Chunk lighting and the voxel rules behind chunk meshes.

pub mod atlas;
pub mod lighting;
pub mod scheduler;
pub mod voxel;
