//! A two-ended bump allocator for the time before the real allocators work,
//! with its model and the proofs of what it guarantees.
pub mod align;
pub mod early;
pub mod laws;
pub mod region;

pub use early::{AllocError, EarlyAllocator};
