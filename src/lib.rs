//! Scalar values of a dynamically typed expression language: their kinds,
//! truthiness, and conversions to and from native values.

use vstd::prelude::*;

pub mod binary64;
pub mod decimal;
pub mod laws;
pub mod scalar;

pub use scalar::ShyScalar;
