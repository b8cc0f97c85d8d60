//! What a calculation starts from.
use vstd::prelude::*;

use crate::double::Double;
use crate::operators::whole;
use crate::osu::attributes::OsuDifficultyAttributes;
use crate::query::{optional, GameMods, Math, Query};
use crate::value::{exactly, Value};

verus! {

/// What is asked of a calculation.
#[derive(Clone, Copy, Debug)]
pub struct Difficulty {
    pub mods: GameMods,
    /// How many objects were passed.
    pub passed_objects: usize,
    pub clock_rate: Double,
}

/// The attributes of a map under some mods.
#[derive(Clone, Copy, Debug)]
pub struct BeatmapAttributes {
    /// The approach rate at the played rate.
    pub ar: Double,
    /// The overall difficulty at the played rate.
    pub od: Double,
    pub cs: Double,
    pub hp: Double,
    /// The time from when an object shows to when it is due.
    pub ar_window: Option<Double>,
    pub od_great: Option<Double>,
    pub od_ok: Option<Double>,
    pub od_meh: Option<Double>,
}

/// A map of osu!standard.
#[derive(Clone, Copy, Debug)]
pub struct Beatmap {
    /// The number of hit objects.
    pub n_hit_objects: usize,
    pub attributes: BeatmapAttributes,
}

/// What is known of a map before its objects are looked at.
#[derive(Debug)]
pub struct OsuDifficultySetup {
    /// The circle size that distances are scaled by.
    pub cs: Double,
    pub map_attrs: BeatmapAttributes,
    pub attrs: OsuDifficultyAttributes,
    pub time_preempt: Double,
}

/// A number where there is one, else zero.
pub open spec fn or_zero_of(x: Option<Value>) -> Value {
    match x {
        Some(x) => x,
        None => exactly(0),
    }
}

/// A number where there is one, else zero.
pub fn or_zero(x: Option<Double>) -> (r: Double)
    ensures
        r@ == or_zero_of(optional(x)),
{
    match x {
        Some(x) => x,
        None => whole(0),
    }
}

impl OsuDifficultyAttributes {
    /// Whether nothing is known but the attributes of the map.
    pub open spec fn starts_at(self, map: BeatmapAttributes) -> bool {
        &&& self.blank()
        &&& self.ar@ == map.ar@
        &&& self.od@ == map.od@
        &&& self.hp@ == map.hp@
        &&& self.cs@ == exactly(0)
        &&& self.great_hit_window@ == or_zero_of(optional(map.od_great))
        &&& self.ok_hit_window@ == or_zero_of(optional(map.od_ok))
        &&& self.meh_hit_window@ == or_zero_of(optional(map.od_meh))
    }

    /// Whether every field that the objects of a map decide is empty.
    pub open spec fn blank(self) -> bool {
        &&& self.aim@ == exactly(0)
        &&& self.aim_difficult_slider_count@ == exactly(0)
        &&& self.speed@ == exactly(0)
        &&& self.flashlight@ == exactly(0)
        &&& self.memory@ == exactly(0)
        &&& self.slider_factor@ == exactly(0)
        &&& self.aim_top_weighted_slider_factor@ == exactly(0)
        &&& self.speed_top_weighted_slider_factor@ == exactly(0)
        &&& self.speed_note_count@ == exactly(0)
        &&& self.aim_difficult_strain_count@ == exactly(0)
        &&& self.speed_difficult_strain_count@ == exactly(0)
        &&& self.nested_score_per_object@ == exactly(0)
        &&& self.legacy_score_base_multiplier@ == exactly(0)
        &&& self.maximum_legacy_combo_score@ == exactly(0)
        &&& self.n_circles == 0
        &&& self.n_sliders == 0
        &&& self.n_large_ticks == 0
        &&& self.n_spinners == 0
        &&& self.n_objects == 0
        &&& self.stars@ == exactly(0)
        &&& self.max_combo == 0
        &&& self.dominant_tap_bpm@ == exactly(0)
        &&& self.speed_rework_mult_vanilla@ == exactly(0)
        &&& self.speed_rework_mult_autopilot@ == exactly(0)
        &&& self.local_sr_per_minute@.len() == 0
        &&& self.local_autopilot_sr_per_minute@.len() == 0
        &&& self.local_aim_per_minute@.len() == 0
        &&& self.local_bpm_per_minute@.len() == 0
        &&& self.avg_jump_dist@ == exactly(0)
        &&& self.median_delta_time@ == exactly(0)
        &&& self.rx_chunk_hardness@.len() == 0
        &&& self.rx_chunk_avg_delta@.len() == 0
        &&& self.consistency_strictness@ == exactly(0)
        &&& self.density_multiplier@ == exactly(0)
    }
}

impl OsuDifficultySetup {
    /// What is known of a map before its objects are looked at.
    pub fn new<F: Fn(Query<Double>) -> Double>(
        math: &Math<F>,
        difficulty: &Difficulty,
        map: &Beatmap,
    ) -> (r: Self)
        requires
            math.sound(),
        ensures
            r.cs == map.attributes.cs,
            r.map_attrs == map.attributes,
            r.attrs.starts_at(map.attributes),
            r.time_preempt@ == math@.single(
                or_zero_of(optional(map.attributes.ar_window)) * difficulty.clock_rate@,
            ),
    {
        let map_attrs = map.attributes;
        let attrs = OsuDifficultyAttributes {
            aim: whole(0),
            aim_difficult_slider_count: whole(0),
            speed: whole(0),
            flashlight: whole(0),
            memory: whole(0),
            slider_factor: whole(0),
            aim_top_weighted_slider_factor: whole(0),
            speed_top_weighted_slider_factor: whole(0),
            speed_note_count: whole(0),
            aim_difficult_strain_count: whole(0),
            speed_difficult_strain_count: whole(0),
            nested_score_per_object: whole(0),
            legacy_score_base_multiplier: whole(0),
            maximum_legacy_combo_score: whole(0),
            ar: map_attrs.ar,
            od: map_attrs.od,
            hp: map_attrs.hp,
            cs: whole(0),
            great_hit_window: or_zero(map_attrs.od_great),
            ok_hit_window: or_zero(map_attrs.od_ok),
            meh_hit_window: or_zero(map_attrs.od_meh),
            n_circles: 0,
            n_sliders: 0,
            n_large_ticks: 0,
            n_spinners: 0,
            n_objects: 0,
            stars: whole(0),
            max_combo: 0,
            dominant_tap_bpm: whole(0),
            speed_rework_mult_vanilla: whole(0),
            speed_rework_mult_autopilot: whole(0),
            local_sr_per_minute: Vec::new(),
            local_autopilot_sr_per_minute: Vec::new(),
            local_aim_per_minute: Vec::new(),
            local_bpm_per_minute: Vec::new(),
            avg_jump_dist: whole(0),
            median_delta_time: whole(0),
            rx_chunk_hardness: Vec::new(),
            rx_chunk_avg_delta: Vec::new(),
            consistency_strictness: whole(0),
            density_multiplier: whole(0),
        };
        let time_preempt = math.single(or_zero(map_attrs.ar_window) * difficulty.clock_rate);
        OsuDifficultySetup { cs: map_attrs.cs, map_attrs, attrs, time_preempt }
    }
}

} // verus!
