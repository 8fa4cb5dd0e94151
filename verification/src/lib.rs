//! A minimal feedforward network evaluator with a gradient-free,
//! mutation-based trainer.
//!
//! All values live on a signed fixed-point scale: an `i64` stands for the
//! real number `value / FX_ONE`.  Arithmetic saturates at the ends of the
//! representable range, and the activation function is a bounded rational
//! approximation of the hyperbolic tangent.

use vstd::prelude::*;

pub mod fixed;
pub mod laws;
pub mod metrics;
pub mod net;
mod rng;

pub use metrics::diff;
pub use net::Net;

verus! {

/// Why a call was rejected.
#[derive(Clone, Copy, Debug, PartialEq, Eq, Structural)]
pub enum Error {
    /// An input vector's length does not match the expected size.
    LengthMismatch,
    /// A topology has fewer than two entries.
    InvalidTopology,
}

} // verus!
