//! Card-elimination game whose draws are seeded by a public randomness beacon.

pub mod beacon;
pub mod deck;
pub mod game;
pub mod laws;
pub mod model;
pub mod record;
pub mod registry;
pub mod rng;
pub mod schedule;
