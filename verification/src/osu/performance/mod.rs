//! Performance of osu!standard scores.
pub mod auto_marathon;
pub mod calculator;
pub mod counts;
pub mod hardness;
pub mod laws;
pub mod marathon;
pub mod nerfs;
pub mod peaks;
pub mod piloted;
pub mod relax_marathon;
pub mod repetition;
pub mod rx_miss;
pub mod worth;
