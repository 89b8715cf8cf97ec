//! Memory primitives.

pub mod arena;
