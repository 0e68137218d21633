//! Simulation core of a small networked asteroid-shooter: actors and their
//! physics, the shared world state, the wire messages and their codec, and
//! the connection settings. All quantities are fixed-point integers so that
//! every peer computes the same values.

pub mod actor;
pub mod angle;
pub mod outside;
pub mod spawner;
pub mod structs;
pub mod tick;
pub mod net_structs;
pub mod codec;
pub mod networking;
