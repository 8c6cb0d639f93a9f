//! The terrain of one body: six quadtrees, one per face of a cube, refined
//! around a viewer, with a compact identity for every leaf.

pub mod axis;
pub mod cache;
pub mod chunk_hash;
pub mod cube_tree;
pub mod mesh;
