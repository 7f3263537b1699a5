//! Tempo synced live performance effects and the utilities they share.
//!
//! The control logic of the effects (ring buffer bookkeeping, slice looping,
//! grid positions, pad states) and the sample generator live here with their
//! contracts; floating point rendering is done by the caller.

pub mod performance;
pub mod utils;
