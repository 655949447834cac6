//! Plans a scan of a code stream for a set of needles: which matcher finds the
//! codes, which resolver turns hits into rows, and what the scan costs.
//!
//! The planner works in whole numbers throughout. Where its model needs an
//! exponential or a logarithm it asks the caller's function for a reading.

pub mod cover;
pub mod dispatch;
pub mod fixed;
pub mod laws;
pub mod policy;
