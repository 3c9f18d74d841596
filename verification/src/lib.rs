//! A deterministic, splittable pseudorandom generator.
//!
//! A generator is made from a 256-bit seed and yields 256-bit blocks, 32-bit
//! words or bytes. Splitting a generator gives a second one whose outputs are
//! drawn from a region of the counter space that the first will never enter,
//! so the two can be handed to different tasks with no further coordination.

pub mod bits;
pub mod capacity;
pub mod endian;
pub mod model;
pub mod regions;
pub mod splittable;
pub mod tf;
pub mod traces;
