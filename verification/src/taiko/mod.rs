//! The rules of osu!taiko.
pub mod performance;
