//! Synthetic point-cloud datasets for small learning experiments: a 1-D
//! regression curve and the two-class interleaved half-moons, with a
//! deterministic seeded train/test split and flat batching of samples.
//!
//! Coordinates are carried as the bit patterns of the caller's 32-bit
//! values; the library never interprets them. Everything it does decide —
//! sample order, labels, the split arithmetic and the batch layout — is
//! stated in the contracts below and verified.

pub mod moons_data;
pub mod shuffle;
pub mod split;
pub mod toy_data;
