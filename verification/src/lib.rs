//! A fixed-timestep arcade simulation: a player-controlled vessel defends
//! against descending rows of aliens that advance, reverse at the walls, and
//! fire projectiles. The crate holds the world model and the verified
//! simulation engine; rendering, input polling and frame pacing are left to
//! the embedding program.

pub mod engine;
pub mod laws;
pub mod world;
