//! Fixed-point decimal numbers with six fractional digits.
//!
//! A [`SafeDecimal`] is a non-negative quantity stored as one scaled
//! integer. Every operation either returns the exact (or truncated)
//! result or fails; nothing wraps around.

pub mod decimal;
pub mod digits;
pub mod error;
pub mod format;
pub mod json;
pub mod laws;
pub mod order;
pub mod parse;

pub use decimal::SafeDecimal;
pub use error::{Error, IntErrorKind};
