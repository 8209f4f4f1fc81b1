//! Concurrent chunk storage and mesh extraction for a voxel terrain.

pub mod vector;
pub mod index;
pub mod iterator;
pub mod chunk;
pub mod array;
pub mod mesh;
