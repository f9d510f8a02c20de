//! Movement and collision core of a tile-based 2D platformer.
//!
//! Given a desired per-frame displacement and an axis-aligned hitbox, the
//! library determines how far the hitbox may actually move against a static
//! tile grid of solids, one-way walls and sloped ramps, and drives that
//! resolution through a minimal entity/component store executed by a
//! fixed-order per-frame pipeline.

pub mod math;
pub mod collision;
pub mod ecs;
pub mod player;
pub mod world;
pub mod level;
pub mod tiles;
pub mod object;
