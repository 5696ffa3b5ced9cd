//! A verified core for a 2D falling-sand simulation.
//!
//! The simulation plane is partitioned into uniform square cells; particles
//! ("sand grains") are indexed by cell for fast neighbour queries, fall under
//! gravity, collide, and settle into piles.  All positions and velocities are
//! fixed-point integers with 1000 sub-units per length unit, so the physics
//! and the grid bookkeeping are exact and machine-checkable.

pub mod fixed;
pub mod sand;
pub mod world;
