//! Memory-management kernel for on-demand layer loading: a bump arena and the
//! scheduler that decides what fits, what must be evicted, and what never can.

pub mod memory;
pub mod scheduler;

pub use memory::arena::{ArenaError, ArenaHandle, ModelArena};
