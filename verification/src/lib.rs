//! A scaling-benchmark core for attribute-based-encryption scheme operations:
//! a generator for boolean access-policy strings of controlled width, a
//! persistent row/column result matrix with sparse, idempotent updates, and
//! the scenario decisions that drive a scheme through a sanity-checked
//! measurement.

pub mod matrix;
pub mod policy;
pub mod scenario;
pub mod scheme;
pub mod store;
