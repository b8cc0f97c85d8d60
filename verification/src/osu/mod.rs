//! The rules of osu!standard.
pub mod attributes;
pub mod difficulty;
pub mod performance;
