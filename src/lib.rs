//! Distinct-element counting: an exact counter, a 32-bit byte-at-a-time hash,
//! and the integer sketch state (registers, harmonic sum, range regime) that
//! LogLog and HyperLogLog estimates are computed from.

pub mod estimate;
pub mod exact;
pub mod hashing;
pub mod sketch;

pub use exact::naive_cardinality;
pub use hashing::murmur_oaat;
