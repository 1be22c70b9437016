//! Field-of-view engine for a tile-based multiplayer world: symmetric
//! shadowcasting over an occlusion set, a per-player tri-state visibility
//! grid, and the awareness derivation that filters an entity snapshot down
//! to what one player can perceive — together with the small, deterministic
//! game model the engine observes.

pub mod ecs;
pub mod fov;
pub mod game;
pub mod human;
pub mod shadowcast;
pub mod structs;
pub mod tileset;
pub mod ui;
