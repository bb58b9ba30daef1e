//! Simulation core of a grid-based, turn-driven exploration game.
//!
//! The crate decides what happens when an actor attempts to act, what an
//! actor can currently see, and how the playable space is procedurally
//! carved.  Rendering, camera and window management, audio, asset loading
//! and device input mapping are external collaborators and live outside
//! this library.

pub mod components;
pub mod algorithms;
pub mod room;
pub mod map;
pub mod mapgen;
pub mod visibility;
pub mod world;
pub mod intentions;
pub mod scheduler;
pub mod update;
pub mod monsters;
pub mod ui;
mod rng;
