//! A software raycasting renderer over a grid map.
//!
//! The renderer works on fixed-point coordinates: one map-cell unit is
//! `FP` (65536), so a value `v` stands for the rational number `v / FP`.
//! Per frame, the player pose is updated from held-key intents, then one
//! ray is cast per framebuffer column with a DDA grid traversal, and the
//! struck wall is drawn as a textured vertical span.

use vstd::prelude::*;

pub mod fixed;
pub mod input;
pub mod player;
pub mod raycast;
pub mod render;
pub mod grid;
pub mod texture;

verus! {

} // verus!
