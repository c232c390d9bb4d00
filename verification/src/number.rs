//! Binary64 floating-point numbers: what they stand for, and arithmetic on their encodings.

pub mod binary64;
pub mod datum;
pub mod exactness;
pub mod monotone;
pub mod powers;
pub mod root;
pub mod rounding;
pub mod whole;
