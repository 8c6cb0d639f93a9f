//! Adaptive level-of-detail terrain for planet-sized bodies: a quadtree per
//! cube face, compact chunk identities, mesh index generation and the
//! bookkeeping that keeps a chunk cache in step with the current leaves.

pub mod math;
pub mod physics;
pub mod player;
pub mod state;
pub mod terrain;
