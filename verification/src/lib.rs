//! Verified performance-point arithmetic.
pub mod bits;
pub mod double;
pub mod lists;
pub mod operators;
pub mod order;
pub mod osu;
pub mod play;
pub mod powers;
pub mod query;
pub mod rounding;
pub mod signs;
pub mod sorting;
pub mod taiko;
pub mod value;
