//! What holds of the planner and the dispatch as a whole.
//!
//! A law that turns on what the caller's functions read takes what it needs of
//! them as a premise, from [`readings`].

pub mod costs;
pub mod dispatch;
pub mod kernels;
pub mod logarithm;
pub mod plans;
pub mod readings;
pub mod stage_one;
pub mod stage_two;
pub mod whole;
