//! Strain of single objects.
pub mod aim;
pub mod aim_rx;
pub mod bonuses;
pub mod laws;
pub mod patterns;
pub mod rewards;
pub mod strains;
pub mod windows;

pub use self::aim::AimEvaluator;
pub use self::aim_rx::AimRxEvaluator;
