//! Combat core of a real-time tower-defense game.
//!
//! Mobile attackers ("enemies") advance on stationary defenders ("towers"),
//! towers shoot projectiles, enemies strike in melee, and miners accrue gold.
//! All quantities are integers: lengths are in units of 1/10_000 of a world
//! unit (a tile is [`geometry::TILE`] units), times are in microseconds, and
//! health, damage and gold are whole points.

pub mod building;
pub mod geometry;
pub mod hp_bar;
pub mod laws;
pub mod placement;
pub mod projectile;
pub mod targeting;
pub mod tick;
pub mod timer;
pub mod unit;
pub mod world;
