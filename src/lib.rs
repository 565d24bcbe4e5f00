//! Cardinality estimation with the LogLog-Beta algorithm.
//!
//! A counter keeps one small register per bucket. Each element's 64-bit
//! digest picks a bucket with its low bits, and the register keeps the largest
//! rank (one plus the leading zeros of the remaining bits) seen there.
//! The integer state lives here, with its contracts and the laws that govern
//! insertion and merging; the real-valued estimate is computed from the
//! statistics that [`LogLogBeta::zero_count`] and
//! [`LogLogBeta::scaled_inverse_sum`] return.

pub mod rank;
pub mod registers;
pub mod digest;
pub mod counter;

pub use counter::{ConfigurationError, LogLogBeta, MergeError};
pub use rank::{rho, InternalInvariantError};
