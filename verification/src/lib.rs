//! Runtime core of a minimal 2D arcade shooter.
//!
//! A player avatar moves and aims inside a bounded arena, wandering enemies
//! bounce off the arena edges, bullets fly until they leave the arena or
//! strike an enemy, and a score counter grows by a fixed amount per kill
//! while a replacement enemy spawns.
//!
//! All simulation state lives in plain fixed-point integers: positions in
//! milli-units (one playfield unit is 1000 milli-units), directions as
//! near-unit vectors at the same scale, and time in whole milliseconds.
//! Engine concerns (windowing, input devices, rendering) stay outside; the
//! library consumes plain values per tick and exposes the whole world state
//! for a presentation layer to observe.

pub mod geometry;
pub mod timer;
pub mod arena;
pub mod randomness;
pub mod player;
pub mod enemy;
pub mod score;
pub mod weapon;
pub mod world;
