//! A dimensional counter aggregation engine: per-thread batches of labelled
//! counter increments, merged into a global view.

pub mod hashing;
pub mod dimensions;
pub mod store;
pub mod metrics;
pub mod atomic;
pub mod laws;
