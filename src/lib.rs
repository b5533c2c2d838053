//! A breakout-style paddle and ball game for one or two players, modelled as
//! an entity/component store driven by a fixed, ordered pipeline of systems.
//!
//! World coordinates are integers (pixels), with the origin at the top left
//! and y growing downwards.

pub mod components;
pub mod entities;
pub mod store;
pub mod audio;
pub mod collisions;
pub mod input;
pub mod ball;
pub mod player;
pub mod game;
pub mod laws;
