//! Performance of osu!taiko scores.
pub mod calculator;
pub mod laws;
pub mod speeds;
