//! What is known of a map, of a score on it, and of what the score is worth.
use vstd::prelude::*;

use crate::double::Double;

verus! {

/// The difficulty of a map.
#[derive(Debug)]
pub struct OsuDifficultyAttributes {
    pub aim: Double,
    pub aim_difficult_slider_count: Double,
    pub speed: Double,
    pub flashlight: Double,
    pub memory: Double,
    pub slider_factor: Double,
    pub aim_top_weighted_slider_factor: Double,
    pub speed_top_weighted_slider_factor: Double,
    pub speed_note_count: Double,
    pub aim_difficult_strain_count: Double,
    pub speed_difficult_strain_count: Double,
    pub nested_score_per_object: Double,
    pub legacy_score_base_multiplier: Double,
    pub maximum_legacy_combo_score: Double,
    pub ar: Double,
    pub od: Double,
    pub hp: Double,
    pub cs: Double,
    pub great_hit_window: Double,
    pub ok_hit_window: Double,
    pub meh_hit_window: Double,
    pub n_circles: u32,
    pub n_sliders: u32,
    pub n_large_ticks: u32,
    pub n_spinners: u32,
    pub n_objects: u32,
    pub stars: Double,
    pub max_combo: u32,
    /// The tempo that the hardest taps have.
    pub dominant_tap_bpm: Double,
    /// The factor on speed without mods that tap.
    pub speed_rework_mult_vanilla: Double,
    /// The factor on speed under Autopilot.
    pub speed_rework_mult_autopilot: Double,
    /// The stars of each minute.
    pub local_sr_per_minute: Vec<Double>,
    /// The stars of each minute by speed alone.
    pub local_autopilot_sr_per_minute: Vec<Double>,
    /// The stars of each minute by aim alone.
    pub local_aim_per_minute: Vec<Double>,
    /// The tempo of each minute.
    pub local_bpm_per_minute: Vec<Double>,
    /// The mean length of a jump.
    pub avg_jump_dist: Double,
    /// The median of the times between objects.
    pub median_delta_time: Double,
    /// The hardness of chunks of four notes.
    pub rx_chunk_hardness: Vec<Double>,
    /// The mean time between notes of such chunks.
    pub rx_chunk_avg_delta: Vec<Double>,
    /// How strictly timing is judged.
    pub consistency_strictness: Double,
    /// The factor on aim for the density of objects.
    pub density_multiplier: Double,
}

/// How the objects of a map were hit.
#[derive(Clone, Copy, Debug)]
pub struct OsuHitResults {
    pub large_tick_hits: u32,
    pub slider_end_hits: u32,
    pub n300: u32,
    pub n100: u32,
    pub n50: u32,
    pub misses: u32,
}

/// A score.
#[derive(Clone, Copy, Debug)]
pub struct OsuScoreState {
    pub max_combo: u32,
    pub hitresults: OsuHitResults,
    pub legacy_total_score: Option<u32>,
}

/// What a score is worth.
#[derive(Debug)]
pub struct OsuPerformanceAttributes {
    pub difficulty: OsuDifficultyAttributes,
    pub pp: Double,
    pub pp_acc: Double,
    pub pp_aim: Double,
    pub pp_flashlight: Double,
    pub pp_speed: Double,
    pub effective_miss_count: Double,
    pub speed_deviation: Option<Double>,
    pub combo_based_estimated_miss_count: Double,
    pub score_based_estimated_miss_count: Option<Double>,
    pub aim_estimated_slider_breaks: Double,
    pub speed_estimated_slider_breaks: Double,
}

impl OsuHitResults {
    /// The number of objects that were judged.
    pub open spec fn total(self) -> nat {
        (self.n300 + self.n100 + self.n50 + self.misses) as nat
    }

    /// The number of objects that were judged.
    pub fn total_hits(&self) -> (r: u32)
        requires
            self.total() <= u32::MAX,
        ensures
            r == self.total(),
    {
        self.n300 + self.n100 + self.n50 + self.misses
    }
}

} // verus!
