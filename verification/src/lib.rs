//! Authoritative state engine for a multiplayer snake game.
//!
//! The library owns the world model (players, occupancy index, food set,
//! run flag) and the per-tick resolution algorithm: intent application,
//! movement, simultaneous-collision detection, death and respawn, and food
//! replenishment.  Every state transition carries a contract that pins the
//! outcome down, and the resting invariants (bodies, occupancy and food are
//! pairwise disjoint, in bounds, and mutually consistent) are proved to be
//! preserved by every tick.
//!
//! Transport, JSON framing and the async plumbing around the engine live
//! outside the library; they hand plain values in and take plain values back.

pub mod errors;
pub mod grid;
pub mod messages;
pub mod snake;
pub mod state;
pub mod tick;
pub mod types;
mod rng;
