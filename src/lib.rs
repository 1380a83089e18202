//! Simulation core of a networked asteroids-style arcade game.
//!
//! The world is modelled in integer fixed point: positions are in
//! milli-units (a thousandth of a world unit), time is in milliseconds,
//! and velocities are in milli-units per millisecond.
//!
//! - `body`: simulated bodies, their motion, wrapping and timers.
//! - `registry`: the authoritative set of bodies under unique identities.
//! - `spatial`: the uniform-grid proximity index.
//! - `random`: reproducible random streams.
//! - `spawner`: timed asteroid spawning and the division of large asteroids.
//! - `collision`: the broad phase and the resolution of contacts.
//! - `ship`: what a player's actions do to their ship.
//! - `session`: the match lifecycle and the per-tick pipeline.
//! - `replication`: server snapshots and messages, and the client's copy.

pub mod body;
pub mod registry;
pub mod spatial;
pub mod random;
pub mod spawner;
pub mod collision;
pub mod ship;
pub mod session;
pub mod replication;
