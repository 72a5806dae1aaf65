//! Monte Carlo pricing of option contracts over simulated price paths.
//!
//! Every real quantity (prices, rates, amounts, random draws) is a [`Fixed`]:
//! a signed decimal with eighteen fractional digits, reaching beyond 1.7e20
//! either side of zero. Products and quotients are the exact ones rounded to
//! the nearest representable number, and a result that leaves the range is
//! reported rather than hidden.

pub mod cashflows;
pub mod compounding;
pub mod error;
pub mod fixed;
pub mod instant;
pub mod instruments;
pub mod models;
pub mod pricing;
pub mod processes;
mod wide;

pub use error::{ErrorKind, PricingError};
pub use fixed::{Fixed, SCALE};
pub use instant::Instant;
