//! The policy layer over the arena.

pub mod manager;
