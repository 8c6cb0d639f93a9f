//! Planar geometry: fixed-point rectangles and the quadtree built on them.

pub mod quad_tree;
pub mod rect;
pub mod refinement;
pub mod tiling;
