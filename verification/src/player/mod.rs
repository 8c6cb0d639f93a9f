//! What a character controller reports of the action it is performing.

pub mod controller;
