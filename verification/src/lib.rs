//! Verified gameplay logic of a 2D platformer: the decisions that the
//! game's systems take each frame, and the merging of a level's wall tiles
//! into a few rectangular colliders.

pub mod entity;
pub mod world;
