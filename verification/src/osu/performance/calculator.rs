//! The worth of a score.
use vstd::prelude::*;

use crate::bits::law_patterns_are_values;
use crate::double::Double;
use crate::lists::values;
use crate::operators::{ratio, whole};
use crate::order::{
    lemma_lesser, lemma_minus, lemma_minus_order, lemma_near_order, lemma_order,
    lemma_settle_fits, lemma_whole_place, proper,
};
use crate::osu::attributes::{OsuDifficultyAttributes, OsuPerformanceAttributes, OsuScoreState};
use crate::osu::difficulty::evaluators::windows::{circle_ratio, pi};
use crate::osu::difficulty::skills::memory::{performance_value_of, Memory};
use crate::osu::performance::auto_marathon::{
    autopilot_marathon_multiplier, autopilot_marathon_multiplier_of, AutopilotDecay,
    AutopilotDecayParams,
};
use crate::osu::performance::marathon::{
    vanilla_marathon_multiplier, vanilla_marathon_multiplier_of, SustainedBuff,
    VanillaMarathonParams,
};
use crate::osu::performance::relax_marathon::{
    relax_marathon_multiplier, relax_marathon_multiplier_of, MarathonDecayParams, RelaxDecay,
};
use crate::osu::performance::rx_miss::{
    places_misses_of, rx_strain_weighted_misses, rx_strain_weighted_misses_of,
};
use crate::query::{optional, GameMods, Math, Query, Table};
use crate::value::{exactly, near, one_units, Value};

verus! {

/// What the skills of a score are worth.
#[derive(Clone, Copy, Debug)]
pub struct Worth<T> {
    pub aim: T,
    pub speed: T,
    pub acc: T,
    pub flashlight: T,
}

impl Worth<Value> {
    /// All of them times a factor.
    pub open spec fn scaled_of(self, by: Value) -> Worth<Value> {
        Worth {
            aim: self.aim * by,
            speed: self.speed * by,
            acc: self.acc * by,
            flashlight: self.flashlight * by,
        }
    }
}

impl View for Worth<Double> {
    type V = Worth<Value>;

    open spec fn view(&self) -> Worth<Value> {
        Worth {
            aim: self.aim@,
            speed: self.speed@,
            acc: self.acc@,
            flashlight: self.flashlight@,
        }
    }
}

impl Worth<Double> {
    /// All of them times a factor.
    pub fn scaled(self, by: Double) -> (r: Worth<Double>)
        ensures
            r@ == self@.scaled_of(by@),
    {
        Worth {
            aim: self.aim * by,
            speed: self.speed * by,
            acc: self.acc * by,
            flashlight: self.flashlight * by,
        }
    }
}

/// A score's worth in all and by skill.
pub struct Totals {
    pub pp: Value,
    pub worth: Worth<Value>,
}

impl Totals {
    /// All of it times a factor.
    pub open spec fn scaled_of(self, by: Value) -> Totals {
        Totals { pp: self.pp * by, worth: self.worth.scaled_of(by) }
    }
}

/// What a score is worth, over values.
pub struct Rated {
    pub pp: Value,
    pub worth: Worth<Value>,
    pub effective_miss_count: Value,
    pub speed_deviation: Option<Value>,
    pub combo_based_estimated_miss_count: Value,
    pub score_based_estimated_miss_count: Option<Value>,
    pub aim_estimated_slider_breaks: Value,
    pub speed_estimated_slider_breaks: Value,
}

/// The values of a score's worth.
pub open spec fn rated(r: OsuPerformanceAttributes) -> Rated {
    Rated {
        pp: r.pp@,
        worth: Worth {
            aim: r.pp_aim@,
            speed: r.pp_speed@,
            acc: r.pp_acc@,
            flashlight: r.pp_flashlight@,
        },
        effective_miss_count: r.effective_miss_count@,
        speed_deviation: optional(r.speed_deviation),
        combo_based_estimated_miss_count: r.combo_based_estimated_miss_count@,
        score_based_estimated_miss_count: optional(r.score_based_estimated_miss_count),
        aim_estimated_slider_breaks: r.aim_estimated_slider_breaks@,
        speed_estimated_slider_breaks: r.speed_estimated_slider_breaks@,
    }
}

/// How many misses a Meh is worth on a map without Relax.
pub open spec fn n50_effective_miss_multiplier_of(od: Value) -> Value {
    if od.at_most(exactly(1)) {
        exactly(1)
    } else if od.at_most(exactly(7)) {
        exactly(1) - (od - exactly(1)) / exactly(6) * near(5, 10)
    } else if od.at_most(exactly(10)) {
        near(5, 10) - (od - exactly(7)) / exactly(3) * near(25, 100)
    } else {
        (near(25, 100) * (exactly(1) - (od - exactly(10)) / near(333, 100))).clamped(
            exactly(0),
            near(25, 100),
        )
    }
}

/// How many misses a Meh is worth on a map without Relax.
pub fn n50_effective_miss_multiplier(od: Double) -> (r: Double)
    ensures
        r@ == n50_effective_miss_multiplier_of(od@),
{
    if od.at_most(whole(1)) {
        whole(1)
    } else if od.at_most(whole(7)) {
        whole(1) - (od - whole(1)) / whole(6) * ratio(5, 10)
    } else if od.at_most(whole(10)) {
        ratio(5, 10) - (od - whole(7)) / whole(3) * ratio(25, 100)
    } else {
        (ratio(25, 100) * (whole(1) - (od - whole(10)) / ratio(333, 100))).clamped(
            whole(0),
            ratio(25, 100),
        )
    }
}

/// Rates a score on a map.
#[derive(Debug)]
pub struct OsuPerformanceCalculator {
    pub attrs: OsuDifficultyAttributes,
    pub mods: GameMods,
    pub acc: Double,
    pub state: OsuScoreState,
    pub using_classic_slider_acc: bool,
}

impl OsuPerformanceCalculator {
    /// The number of objects that were hit, well or not.
    pub open spec fn total_successful_hits_of(self) -> nat {
        (self.state.hitresults.n300 + self.state.hitresults.n100 + self.state.hitresults.n50) as nat
    }

    /// The number of objects that were not hit perfectly.
    pub open spec fn total_imperfect_hits_of(self) -> Value {
        exactly(
            (self.state.hitresults.n100 + self.state.hitresults.n50
                + self.state.hitresults.misses) as nat,
        )
    }

    /// The number of objects that were judged.
    pub open spec fn total_hits_of(self) -> Value {
        exactly(self.state.hitresults.total())
    }

    /// The number of slider ends that were dropped.
    pub open spec fn n_slider_ends_dropped_of(self) -> int {
        self.attrs.n_sliders - self.state.hitresults.slider_end_hits
    }

    /// The number of large ticks that were missed, which classic scores do not tell.
    pub open spec fn n_large_tick_miss_of(self) -> int {
        if self.using_classic_slider_acc {
            0
        } else {
            self.attrs.n_large_ticks - self.state.hitresults.large_tick_hits
        }
    }

    /// How many misses the combo gives away.
    pub open spec fn calculate_combo_based_estimated_miss_count_of(self) -> Value {
        let misses = exactly(self.state.hitresults.misses as nat);
        let combo = exactly(self.state.max_combo as nat);
        if self.attrs.n_sliders == 0 {
            misses
        } else if self.using_classic_slider_acc {
            // Dropped slider ends do not break the combo; a tenth of them is assumed.
            let full_combo_threshold = exactly(self.attrs.max_combo as nat) - near(1, 10) * exactly(
                self.attrs.n_sliders as nat,
            );
            let by_combo = if combo.below(full_combo_threshold) {
                full_combo_threshold / combo.greater(exactly(1))
            } else {
                misses
            };
            let count = by_combo.lesser(self.total_imperfect_hits_of());
            // A broken slider costs at least two of the combo.
            let max_possible_slider_breaks = self.possible_slider_breaks_of();
            if exactly(max_possible_slider_breaks as nat).below(count - misses) {
                exactly((self.state.hitresults.misses + max_possible_slider_breaks) as nat)
            } else {
                count
            }
        } else {
            let full_combo_threshold = exactly(
                (self.attrs.max_combo - self.n_slider_ends_dropped_of()) as nat,
            );
            let by_combo = if combo.below(full_combo_threshold) {
                full_combo_threshold / combo.greater(exactly(1))
            } else {
                misses
            };
            by_combo.lesser(
                exactly((self.n_large_tick_miss_of() + self.state.hitresults.misses) as nat),
            )
        }
    }

    /// How many sliders can have been broken, by the combo.
    pub open spec fn possible_slider_breaks_of(self) -> u32 {
        let lost = if self.attrs.max_combo > self.state.max_combo {
            (self.attrs.max_combo - self.state.max_combo) as u32 / 2
        } else {
            0
        };
        if self.attrs.n_sliders < lost {
            self.attrs.n_sliders
        } else {
            lost
        }
    }

    /// How many sliders a classic score broke, by its Oks and combo.
    pub open spec fn calculate_estimated_slider_breaks_of(
        self,
        t: Table,
        top_weighted_slider_factor: Value,
        effective_miss_count: Value,
    ) -> Value {
        if !self.using_classic_slider_acc || self.state.hitresults.n100 == 0 {
            exactly(0)
        } else {
            let n100 = exactly(self.state.hitresults.n100 as nat);
            let missed_combo_percent = exactly(1) - exactly(self.state.max_combo as nat) / exactly(
                self.attrs.max_combo as nat,
            );
            let breaks = (effective_miss_count * top_weighted_slider_factor).lesser(n100);
            // Scores with more Oks are more likely to have slider breaks.
            let ok_adjustment = ((n100 - breaks) + near(5, 10)) / n100;
            // A miss count close to one leaves little room for further breaks.
            let likely = breaks * t.smoothstep(effective_miss_count, exactly(1), exactly(2));
            likely * ok_adjustment * t.logistic(
                missed_combo_percent,
                near(33, 100),
                exactly(15),
                None,
            )
        }
    }

    /// The deviation of the taps on speed notes, taking all mistakes to be there.
    pub open spec fn calculate_speed_deviation_of(self, t: Table) -> Option<Value> {
        if self.total_successful_hits_of() == 0 {
            None
        } else {
            let h = self.state.hitresults;
            let notes = self.attrs.speed_note_count@
                + (self.total_hits_of() - self.attrs.speed_note_count@)
                * near(1, 10);
            let miss = exactly(h.misses as nat).lesser(notes);
            let meh = exactly(h.n50 as nat).lesser(notes - miss);
            let ok = exactly(h.n100 as nat).lesser(notes - miss - meh);
            let great = exactly(0).greater(notes - miss - meh - ok);
            self.calculate_deviation_of(t, great, ok, meh)
        }
    }

    /// The deviation of taps by how many of them were Greats, Oks and Mehs.
    pub open spec fn calculate_deviation_of(
        self,
        t: Table,
        relevant_count_great: Value,
        relevant_count_ok: Value,
        relevant_count_meh: Value,
    ) -> Option<Value> {
        let counted = relevant_count_great + relevant_count_ok + relevant_count_meh;
        if counted.at_most(exactly(0)) {
            None
        } else {
            // The proportion of hits that were Greats, and what it is at least with a
            // confidence of 99%.
            let n = exactly(1).greater(relevant_count_great + relevant_count_ok);
            let p = relevant_count_great / n;
            let z = near(232_634_787_404, 100_000_000_000);
            let p_lower_bound = ((n * p + z * z / exactly(2)) / (n + z * z) - z / (n + z * z)
                * (n * p * (
            exactly(1) - p) + z * z / exactly(4)).root()).lesser(p);
            let ok_window = self.attrs.ok_hit_window@;
            let meh_window = self.attrs.meh_hit_window@;
            let inner = if near(1, 100).below(p_lower_bound) {
                let raw = self.attrs.great_hit_window@
                    / (exactly(2).root() * t.erf_inv(p_lower_bound));
                // The normal distribution is cut off at the window for Oks.
                let tail = (exactly(2) / pi()).root() * ok_window * t.exp(
                    near(5, 10).negated() * t.power(ok_window / raw, exactly(2)),
                ) / (raw * t.erf(ok_window / (exactly(2).root() * raw)));
                raw * (exactly(1) - tail).root()
            } else {
                ok_window / exactly(3).root()
            };
            // Mehs are taken to be uniformly distributed.
            let meh_variance = (meh_window * meh_window + ok_window * meh_window + ok_window
                * ok_window)
                / exactly(3);
            Some(
                (((relevant_count_great + relevant_count_ok) * t.power(inner, exactly(2))
                    + relevant_count_meh * meh_variance) / counted).root(),
            )
        }
    }

    /// How much of speed remains where it was tapped unevenly.
    pub open spec fn calculate_speed_high_deviation_nerf_of(
        self,
        t: Table,
        speed_deviation: Value,
    ) -> Value {
        let speed_value = t.speed_performance(self.attrs.speed@);
        let cutoff = exactly(100) + exactly(220) * t.power(
            exactly(22) / speed_deviation,
            near(65, 10),
        );
        if speed_value.at_most(cutoff) {
            exactly(1)
        } else {
            let scale = exactly(50);
            let adjusted = scale
                * (t.ln((speed_value - cutoff) / scale + exactly(1)) + cutoff / scale);
            let share = exactly(1) - t.reverse_lerp(speed_deviation, exactly(22), exactly(27));
            t.lerp(adjusted, speed_value, share) / speed_value
        }
    }

    /// How much of a score remains for its unstable timing on a strict map: from 88%
    /// to all of it.
    pub open spec fn calculate_consistency_multiplier_of(
        strictness: Value,
        speed_deviation: Option<Value>,
    ) -> Value {
        match speed_deviation {
            Some(speed_deviation) => {
                let excess_ur = (speed_deviation * exactly(10) - exactly(10)).greater(exactly(0));
                let ur_factor = (excess_ur / exactly(40)).clamped(exactly(0), exactly(1));
                (exactly(1) - near(12, 100) * strictness * ur_factor).clamped(
                    near(88, 100),
                    exactly(1),
                )
            },
            None => exactly(1),
        }
    }

    /// How much of a skill remains after misses, less where few sections are hard.
    pub open spec fn calculate_miss_penalty_of(
        t: Table,
        miss_count: Value,
        diff_strain_count: Value,
    ) -> Value {
        near(96, 100) / (miss_count / (exactly(4) * t.power(t.ln(diff_strain_count), near(94, 100)))
            + exactly(1))
    }

    /// The bonus for length, in proportion to the square of the accuracy.
    pub open spec fn length_bonus_of(t: Table, total_hits: Value, accuracy: Value) -> Value {
        let base = near(95, 100);
        let long = if exactly(2000).below(total_hits) {
            exactly(1)
        } else {
            exactly(0)
        };
        let raw = base + near(4, 10) * (total_hits / exactly(2000)).lesser(exactly(1)) + long
            * t.log10(
            total_hits / exactly(2000),
        ) * near(5, 10);
        base + (raw - base) * t.power(accuracy.clamped(exactly(0), exactly(1)), exactly(2))
    }

    /// How much of a skill remains after misses on a map that is lenient on timing.
    pub open spec fn low_od_miss_multiplier_of(t: Table, misses: Value, od: Value) -> Value {
        if misses.at_most(exactly(0)) || exactly(7).at_most(od) {
            exactly(1)
        } else {
            let severity = ((exactly(7) - od) / exactly(7)).clamped(exactly(0), exactly(1));
            t.power(exactly(1) - near(14, 100) * severity, misses).greater(near(30, 100))
        }
    }

    /// How much of flashlight remains for a combo.
    pub open spec fn get_combo_scaling_factor_of(self, t: Table) -> Value {
        if self.attrs.max_combo == 0 {
            exactly(1)
        } else {
            (t.power(exactly(self.state.max_combo as nat), near(8, 10)) / t.power(
                exactly(self.attrs.max_combo as nat),
                near(8, 10),
            )).lesser(exactly(1))
        }
    }

    /// A light tax on a combo that is not full.
    pub open spec fn combo_ratio_tax_of(self, t: Table) -> Value {
        if self.attrs.max_combo == 0 {
            exactly(1)
        } else {
            let share = (exactly(self.state.max_combo as nat) / exactly(
                self.attrs.max_combo as nat,
            )).clamped(exactly(0), exactly(1));
            (near(85, 100) + near(15, 100) * t.power(share, near(35, 100))).lesser(exactly(1))
        }
    }

    /// How much of a score remains for where its misses were.
    ///
    /// A miss early on a long map is more damaging than the same miss after most of
    /// the map is done. The factor is relative to the full combo of the map and
    /// leaves full combos untouched.
    pub open spec fn miss_combo_multiplier_of(
        t: Table,
        map_max_combo: u32,
        player_max_combo: u32,
        effective_miss_count: Value,
    ) -> Value {
        if effective_miss_count.at_most(exactly(0)) || map_max_combo == 0 {
            exactly(1)
        } else {
            let combo_ratio = (exactly(player_max_combo as nat)
                / exactly(map_max_combo as nat)).clamped(
                exactly(0),
                exactly(1),
            );
            (near(75, 100) + near(25, 100) * t.power(combo_ratio, near(7, 10))).clamped(
                near(75, 100),
                exactly(1),
            )
        }
    }

    /// How many misses the Mehs of a score are worth: all of them up to OD 1, none
    /// from OD 10 on; all of them from AR 9 on, none up to AR 7; and ever fewer from
    /// a combo of 1300 to one of 10000. Easy and NoFail take them off.
    pub open spec fn n50_misses_of(self, t: Table) -> Value {
        let n50 = self.state.hitresults.n50;
        let od = self.attrs.od@;
        let ar = self.attrs.ar@;
        if self.mods.ez || self.mods.nf || n50 == 0 {
            exactly(0)
        } else {
            let od_factor = if od.at_most(exactly(1)) {
                exactly(1)
            } else {
                t.power((exactly(10) - od) / exactly(9), exactly(3)).clamped(exactly(0), exactly(1))
            };
            let ar_factor = if exactly(9).at_most(ar) {
                exactly(1)
            } else if exactly(7).at_most(ar) {
                (ar - exactly(7)) / exactly(2)
            } else {
                exactly(0)
            };
            let combo_factor = if self.attrs.max_combo >= 1300 {
                (exactly(1) - (exactly(self.attrs.max_combo as nat) - exactly(1300))
                    / (exactly(10000)
                    - exactly(1300))).clamped(exactly(0), exactly(1))
            } else {
                exactly(1)
            };
            exactly(n50 as nat) * od_factor * ar_factor * combo_factor
        }
    }

    /// How much of a score remains for its consistency: it falls exponentially with
    /// the misses, more gently on long maps. Relax, Autopilot and NoFail have systems
    /// of their own and bypass this.
    pub open spec fn apply_cc_v3_multiplier_of(
        self,
        t: Table,
        effective_miss_count: Value,
    ) -> Value {
        let misses = effective_miss_count + self.n50_misses_of(t);
        if (effective_miss_count.at_most(exactly(0)) && self.state.hitresults.n50 == 0)
            || self.mods.rx
            || self.mods.ap || self.mods.nf || misses.at_most(exactly(0)) {
            exactly(1)
        } else {
            let combo = exactly(self.attrs.max_combo as nat);
            let base_exp = near(21, 10) + near(9, 10)
                * (exactly(1) - t.exp(misses.negated() / exactly(8)));
            let combo_softening = exactly(1) - near(15, 100) * ((combo - exactly(1000)) / exactly(
                4000,
            )).clamped(exactly(0), exactly(1));
            let miss_weight = t.power(misses, base_exp * combo_softening);
            let acc_relief = exactly(0) * ((self.acc@ - near(95, 100)) / near(5, 100)).clamped(
                exactly(0),
                exactly(1),
            ) * (combo / exactly(4000)).clamped(exactly(0), exactly(1));
            (t.power(near(998, 1000), miss_weight) + acc_relief).lesser(exactly(1))
        }
    }

    /// How much of the aim of a map counts under Autopilot: what has long jumps at a
    /// high tempo.
    pub open spec fn autopilot_aim_factor_of(self) -> Value {
        let jump_factor = ((self.attrs.avg_jump_dist@ - exactly(80)) / exactly(120)).clamped(
            exactly(0),
            exactly(1),
        );
        let bpm = if exactly(0).below(self.attrs.median_delta_time@) {
            exactly(15_000) / self.attrs.median_delta_time@
        } else {
            exactly(0)
        };
        let bpm_factor = ((bpm - exactly(180)) / exactly(100)).clamped(exactly(0), exactly(1));
        near(20, 100) + near(80, 100) * jump_factor * bpm_factor
    }

    /// How many difficult sliders were not followed properly: for a classic score all
    /// of the missing combo, else the dropped ends and missed ticks.
    pub open spec fn dropped_difficult_sliders_of(self) -> Value {
        let dropped = if self.using_classic_slider_acc {
            self.total_imperfect_hits_of().lesser(
                exactly((self.attrs.max_combo - self.state.max_combo) as nat),
            )
        } else {
            exactly((self.n_slider_ends_dropped_of() + self.n_large_tick_miss_of()) as nat)
        };
        dropped.clamped(exactly(0), self.attrs.aim_difficult_slider_count@)
    }

    /// The misses that a skill is judged by: slider breaks count, up to what was not
    /// hit perfectly.
    pub open spec fn relevant_misses_of(self, breaks: Value, effective_miss_count: Value) -> Value {
        (effective_miss_count + breaks).lesser(
            self.total_imperfect_hits_of() + exactly(self.n_large_tick_miss_of() as nat),
        )
    }

    /// What aim is worth, and how many slider breaks are held against it.
    pub open spec fn compute_aim_value_of(
        self,
        t: Table,
        effective_miss_count: Value,
    ) -> (Value, Value) {
        if self.mods.ap && !self.mods.fl {
            (exactly(0), exactly(0))
        } else {
            let tempered = if self.mods.ap {
                self.attrs.aim@ * self.autopilot_aim_factor_of()
            } else {
                self.attrs.aim@
            };
            let difficulty = if self.rates_sliders() {
                let dropped = self.dropped_difficult_sliders_of();
                let slider_nerf_factor = (exactly(1) - self.attrs.slider_factor@) * t.power(
                    exactly(1) - dropped / self.attrs.aim_difficult_slider_count@,
                    exactly(3),
                ) + self.attrs.slider_factor@;
                tempered * slider_nerf_factor
            } else {
                tempered
            };
            let density = if exactly(0).below(self.attrs.density_multiplier@) {
                self.attrs.density_multiplier@
            } else {
                exactly(1)
            };
            let total_hits = self.total_hits_of();
            let clean = t.aim_performance(difficulty) * density * Self::length_bonus_of(
                t,
                total_hits,
                self.acc@,
            );
            let (missed, breaks) = if exactly(0).below(effective_miss_count) {
                let breaks = self.calculate_estimated_slider_breaks_of(
                    t,
                    self.attrs.aim_top_weighted_slider_factor@,
                    effective_miss_count,
                );
                let relevant = self.relevant_misses_of(breaks, effective_miss_count);
                (
                    clean * Self::calculate_miss_penalty_of(
                        t,
                        relevant,
                        self.attrs.aim_difficult_strain_count@,
                    ) * Self::low_od_miss_multiplier_of(t, relevant, self.attrs.od@),
                    breaks,
                )
            } else {
                (clean, exactly(0))
            };
            let seen = if self.mods.bl {
                missed * (near(13, 10) + (total_hits * (near(16, 10_000) / (exactly(1) + exactly(2)
                    * effective_miss_count)) * t.power(self.acc@, exactly(16)))
                        * (exactly(1) - near(
                    3,
                    1000,
                ) * self.attrs.hp@ * self.attrs.hp@))
            } else if self.mods.tc {
                missed * (exactly(1) + t.visibility_bonus(
                    self.mods,
                    self.attrs.ar@,
                    Some(self.attrs.slider_factor@),
                ))
            } else {
                missed
            };
            (seen * self.acc@, breaks)
        }
    }

    /// The accuracy on speed notes, taking the other notes to be perfect.
    pub open spec fn speed_note_accuracy_of(self, t: Table) -> Value {
        let h = self.state.hitresults;
        let n300 = exactly(h.n300 as nat);
        let others = exactly(0).greater(self.total_hits_of() - self.attrs.speed_note_count@);
        let relevant_n300 = (n300 - others).greater(exactly(0));
        let relevant_n100 = (exactly(h.n100 as nat) - (others - n300).greater(exactly(0))).greater(
            exactly(0),
        );
        let relevant_n50 = (exactly(h.n50 as nat)
            - (others - exactly((h.n300 + h.n100) as nat)).greater(
            exactly(0),
        )).greater(exactly(0));
        if t.same(self.attrs.speed_note_count@, exactly(0)) {
            exactly(0)
        } else {
            (relevant_n300 * exactly(6) + relevant_n100 * exactly(2) + relevant_n50) / (
            self.attrs.speed_note_count@ * exactly(6))
        }
    }

    /// What speed is worth, and how many slider breaks are held against it.
    pub open spec fn compute_speed_value_of(
        self,
        t: Table,
        speed_deviation: Option<Value>,
        effective_miss_count: Value,
    ) -> (Value, Value) {
        match speed_deviation {
            Some(speed_deviation) => if self.mods.rx {
                (exactly(0), exactly(0))
            } else {
                let clean = t.speed_performance(self.attrs.speed@) * Self::length_bonus_of(
                    t,
                    self.total_hits_of(),
                    self.acc@,
                );
                let (missed, breaks) = if exactly(0).below(effective_miss_count) {
                    let breaks = self.calculate_estimated_slider_breaks_of(
                        t,
                        self.attrs.speed_top_weighted_slider_factor@,
                        effective_miss_count,
                    );
                    let relevant = self.relevant_misses_of(breaks, effective_miss_count);
                    (
                        clean * Self::calculate_miss_penalty_of(
                            t,
                            relevant,
                            self.attrs.speed_difficult_strain_count@,
                        ) * Self::low_od_miss_multiplier_of(t, relevant, self.attrs.od@),
                        breaks,
                    )
                } else {
                    (clean, exactly(0))
                };
                let seen = if self.mods.bl {
                    missed * near(112, 100)
                } else if self.mods.tc {
                    missed * (exactly(1) + t.visibility_bonus(self.mods, self.attrs.ar@, None))
                } else {
                    missed
                };
                let even = seen * self.calculate_speed_high_deviation_nerf_of(t, speed_deviation);
                (
                    even * t.power(
                        (self.acc@ + self.speed_note_accuracy_of(t)) / exactly(2),
                        (near(145, 10) - self.attrs.od@) / exactly(2),
                    ),
                    breaks,
                )
            },
            None => (exactly(0), exactly(0)),
        }
    }

    /// The number of objects whose timing counts.
    pub open spec fn timed_objects_of(self) -> int {
        if self.using_classic_slider_acc {
            self.attrs.n_circles as int
        } else {
            self.attrs.n_circles + self.attrs.n_sliders
        }
    }

    /// The points of the objects whose timing counts, six for a Great, taking the
    /// other objects to be Greats.
    pub open spec fn timing_points_of(self) -> int {
        let h = self.state.hitresults;
        let others = h.total() as int - self.timed_objects_of();
        (h.n300 as int - if others > 0 {
            others
        } else {
            0
        }) * 6 + h.n100 as int * 2 + h.n50 as int
    }

    /// The accuracy on the objects whose timing counts, not below zero.
    pub open spec fn better_accuracy_of(self) -> Value {
        if self.timed_objects_of() <= 0 || self.timing_points_of() <= 0 {
            exactly(0)
        } else {
            exactly(self.timing_points_of() as nat) / exactly((self.timed_objects_of() * 6) as nat)
        }
    }

    /// What accuracy is worth.
    pub open spec fn compute_accuracy_value_of(self, t: Table) -> Value {
        let better_acc = self.better_accuracy_of();
        let objects = exactly(self.timed_objects_of() as nat);
        let timed = t.power(near(152_163, 100_000), self.attrs.od@)
            * t.power(better_acc, exactly(24))
            * near(283, 100);
        let long = timed * t.power(objects / exactly(1000), near(3, 10)).lesser(near(115, 100));
        let seen = if self.mods.bl {
            long * near(114, 100)
        } else if self.mods.hd || self.mods.tc {
            long * exactly(1)
        } else {
            long
        };
        if self.mods.rx {
            seen * (near(62, 100) + near(18, 100) * t.power(better_acc, exactly(10)))
        } else if self.mods.ap {
            seen * exactly(1)
        } else if self.mods.fl {
            seen * near(102, 100)
        } else {
            seen * (near(75, 100) + near(25, 100) * t.power(better_acc, exactly(10)))
        }
    }

    /// What flashlight is worth, with what had to be memorized.
    pub open spec fn compute_flashlight_value_of(
        self,
        t: Table,
        effective_miss_count: Value,
    ) -> Value {
        if !self.mods.fl {
            exactly(0)
        } else {
            let total_hits = self.total_hits_of();
            let memory = performance_value_of(
                t,
                self.attrs.memory@,
                self.acc@,
                exactly(self.state.max_combo as nat),
                exactly(self.attrs.max_combo as nat),
                effective_miss_count,
                total_hits,
            );
            let clean = t.power(
                t.power(t.flashlight_performance(self.attrs.flashlight@), near(11, 10)) + t.power(
                    memory,
                    near(11, 10),
                ),
                exactly(1) / near(11, 10),
            );
            let missed = if exactly(0).below(effective_miss_count) {
                clean * (near(97, 100) * t.power(
                    exactly(1) - t.power(effective_miss_count / total_hits, near(775, 1000)),
                    t.power(effective_miss_count, near(875, 1000)),
                ))
            } else {
                clean
            };
            missed * self.get_combo_scaling_factor_of(t) * (near(5, 10) + self.acc@ / exactly(2))
        }
    }

    /// The misses that count: at least those that were, at most the objects judged,
    /// and under Relax the Oks and Mehs as well, more of them the more lenient the map.
    pub open spec fn counted_misses_of(self, t: Table, estimated: Value) -> Value {
        let h = self.state.hitresults;
        let total_hits = self.total_hits_of();
        let od = self.attrs.od@;
        let held = estimated.greater(exactly(h.misses as nat)).lesser(total_hits);
        if self.mods.rx {
            let n100_mult = if exactly(0).below(od) {
                near(75, 100) * (exactly(1) - od / near(1333, 100)).greater(exactly(0))
            } else {
                exactly(1)
            };
            let n50_mult = if exactly(0).below(od) {
                (exactly(1) - t.power(od / near(1333, 100), exactly(5))).greater(exactly(0))
            } else {
                exactly(1)
            };
            (held + exactly(h.n100 as nat) * n100_mult + exactly(h.n50 as nat)
                * n50_mult).lesser(total_hits)
        } else {
            held
        }
    }

    /// The misses that skills are penalized for.
    pub open spec fn penalty_misses_of(self, effective_miss_count: Value) -> Value {
        let h = self.state.hitresults;
        if self.mods.rx {
            rx_strain_weighted_misses_of(
                values(self.attrs.rx_chunk_hardness@),
                h.n300,
                h.n100,
                h.n50,
                h.misses,
            )
        } else {
            effective_miss_count + exactly(h.n50 as nat)
                * n50_effective_miss_multiplier_of(self.attrs.od@)
        }
    }

    /// The factor on the whole score.
    pub open spec fn base_factor_of(self, t: Table) -> Value {
        let base = if self.mods.rx {
            exactly(1)
        } else {
            near(92, 100)
        };
        if self.mods.so {
            base * (exactly(1) - t.power(
                exactly(self.attrs.n_spinners as nat) / self.total_hits_of(),
                near(85, 100),
            ))
        } else {
            base
        }
    }

    /// The factor on speed for how it is tapped.
    pub open spec fn speed_rework_of(self) -> Value {
        let mult = if self.mods.ap {
            self.attrs.speed_rework_mult_autopilot@
        } else {
            self.attrs.speed_rework_mult_vanilla@
        };
        if exactly(0).below(mult) {
            mult
        } else {
            exactly(1)
        }
    }

    /// The skills after the decay of repetitive maps under Relax or Autopilot, or the
    /// buff for sustained ones without them.
    pub open spec fn over_minutes_of(self, t: Table, w: Worth<Value>) -> Worth<Value> {
        let decayed = if self.mods.rx {
            let mult = self.relax_factor_of(t);
            Worth {
                aim: w.aim * t.power(mult, near(92, 100)),
                speed: w.speed,
                acc: w.acc,
                flashlight: w.flashlight * mult,
            }
        } else {
            w
        };
        if self.mods.ap {
            let mult = self.autopilot_factor_of(t);
            Worth {
                aim: decayed.aim,
                speed: decayed.speed * mult,
                acc: decayed.acc,
                flashlight: decayed.flashlight * t.power(mult, near(12, 10)),
            }
        } else if !self.mods.rx {
            let mult = self.marathon_factor_of(t);
            if exactly(1).below(mult) {
                let softened = t.power(mult, near(88, 100));
                Worth {
                    aim: decayed.aim * softened,
                    speed: decayed.speed * softened,
                    acc: decayed.acc * softened,
                    flashlight: decayed.flashlight,
                }
            } else {
                decayed
            }
        } else {
            decayed
        }
    }

    /// How much remains of a repetitive map under Relax.
    pub open spec fn relax_factor_of(self, t: Table) -> Value {
        relax_marathon_multiplier_of(
            t,
            values(self.attrs.local_sr_per_minute@),
            values(self.attrs.local_bpm_per_minute@),
            RelaxDecay::standard(),
        )
    }

    /// How much remains of a repetitive map under Autopilot.
    pub open spec fn autopilot_factor_of(self, t: Table) -> Value {
        autopilot_marathon_multiplier_of(
            t,
            values(self.attrs.local_autopilot_sr_per_minute@),
            values(self.attrs.local_bpm_per_minute@),
            values(self.attrs.local_aim_per_minute@),
            AutopilotDecay::standard(),
        )
    }

    /// The buff for a map that stays hard.
    pub open spec fn marathon_factor_of(self, t: Table) -> Value {
        vanilla_marathon_multiplier_of(
            t,
            values(self.attrs.local_aim_per_minute@),
            values(self.attrs.local_sr_per_minute@),
            self.attrs.max_combo,
            self.state.max_combo,
            self.acc@,
            SustainedBuff::standard(),
        )
    }

    /// The skills after the nerfs for lenient timing, for an approach rate between
    /// 10.1 and 10.5, and for small circles at a middling tempo.
    pub open spec fn map_nerfs_of(self, w: Worth<Value>) -> Worth<Value> {
        let od = self.attrs.od@;
        let ar = self.attrs.ar@;
        let cs = self.attrs.cs@;
        let md = self.attrs.median_delta_time@;
        let acc = if od.below(exactly(9)) && !self.mods.rx {
            w.acc * (exactly(1) - near(73, 1000) * (exactly(9) - od).lesser(exactly(3)))
        } else {
            w.acc
        };
        let read = if near(101, 10).below(ar) && ar.at_most(near(105, 10)) && !self.mods.rx {
            let share = exactly(1)
                - ((ar - near(103, 10)).absolute() / near(2, 10)).lesser(exactly(1));
            w.aim * (exactly(1) - near(6, 100) * share)
        } else {
            w.aim
        };
        let aim = if exactly(0).below(md) && exactly(176).at_most(md) && md.at_most(exactly(250))
            && near(46, 10).at_most(cs) && cs.at_most(near(64, 10)) {
            let cs_t = exactly(1)
                - ((cs - near(55, 10)).absolute() / near(9, 10)).lesser(exactly(1));
            let bpm_t = exactly(1) - ((exactly(30_000) / md - exactly(145)).absolute() / exactly(
                25,
            )).lesser(exactly(1));
            read * (exactly(1) - near(10, 100) * cs_t * bpm_t)
        } else {
            read
        };
        Worth { aim, speed: w.speed, acc, flashlight: w.flashlight }
    }

    /// The skills after the systems for misses: consistency and combo, those of
    /// Autopilot and NoFail, and where in the map the misses were.
    pub open spec fn after_misses_of(
        self,
        t: Table,
        w: Worth<Value>,
        effective_miss_count: Value,
        ap_mult: Value,
        nf_mult: Value,
    ) -> Worth<Value> {
        let scale = self.apply_cc_v3_multiplier_of(t, effective_miss_count)
            * self.combo_ratio_tax_of(t);
        let consistent = w.scaled_of(scale);
        let piloted = if self.mods.ap {
            consistent.scaled_of(ap_mult)
        } else {
            consistent
        };
        let unfailed = if self.mods.nf {
            piloted.scaled_of(nf_mult)
        } else {
            piloted
        };
        unfailed.scaled_of(
            Self::miss_combo_multiplier_of(
                t,
                self.attrs.max_combo,
                self.state.max_combo,
                effective_miss_count,
            ),
        )
    }

    /// What a score with some skills is worth in all.
    pub open spec fn combined_of(self, t: Table, w: Worth<Value>) -> Value {
        t.power(
            t.power(w.aim, near(105, 100)) + t.power(w.speed, near(90, 100))
                + t.power(w.acc, near(11, 10))
                + t.power(w.flashlight, near(11, 10)),
            exactly(1) / near(11, 10),
        ) * self.base_factor_of(t)
    }

    /// Whether the aim of a map depends on how its sliders were followed.
    pub open spec fn rates_sliders(self) -> bool {
        self.attrs.n_sliders > 0 && exactly(0).below(self.attrs.aim_difficult_slider_count@)
    }

    /// Whether the score is not too large to count.
    pub open spec fn countable(self) -> bool {
        self.state.hitresults.total() <= u32::MAX
    }

    /// Whether the points of the objects whose timing counts can be counted.
    pub open spec fn timing_fits(self) -> bool {
        let h = self.state.hitresults;
        let timed = self.timed_objects_of();
        let others = h.total() - timed;
        let greats = (h.n300 - if others > 0 {
            others
        } else {
            0
        }) * 6;
        &&& timed <= u32::MAX
        &&& timed > 0 ==> {
            &&& timed * 6 <= u32::MAX
            &&& timed <= i32::MAX
            &&& h.total() <= i32::MAX
            &&& i32::MIN <= greats <= i32::MAX
            &&& h.n100 * 2 <= i32::MAX
            &&& greats + h.n100 * 2 <= i32::MAX
            &&& greats + h.n100 * 2 + h.n50 <= i32::MAX
        }
    }

    /// Whether no more large ticks were hit than the map has, where the score tells.
    pub open spec fn ticks_fit(self) -> bool {
        !self.using_classic_slider_acc ==> self.state.hitresults.large_tick_hits
            <= self.attrs.n_large_ticks
    }

    /// Whether the combo can be one on the map, where the misses are told by it: only
    /// on a map with sliders.
    pub open spec fn combo_fits(self) -> bool {
        self.attrs.n_sliders > 0 && !self.using_classic_slider_acc ==> {
            &&& self.state.hitresults.slider_end_hits <= self.attrs.n_sliders
            &&& self.n_slider_ends_dropped_of() <= self.attrs.max_combo
            &&& self.ticks_fit()
            &&& self.n_large_tick_miss_of() + self.state.hitresults.misses <= u32::MAX
        }
    }

    /// Whether the sliders that were not followed can be counted.
    pub open spec fn sliders_fit(self) -> bool {
        if self.using_classic_slider_acc {
            self.state.max_combo <= self.attrs.max_combo
        } else {
            &&& self.state.hitresults.slider_end_hits <= self.attrs.n_sliders
            &&& self.ticks_fit()
            &&& self.n_slider_ends_dropped_of() + self.n_large_tick_miss_of() <= u32::MAX
        }
    }

    /// Whether the misses under Relax can be placed, where they are.
    pub open spec fn placing_fits(self) -> bool {
        let h = self.state.hitresults;
        self.mods.rx && places_misses_of(values(self.attrs.rx_chunk_hardness@), h.misses) ==> {
            &&& h.n300 * 300 + h.n100 * 100 + h.n50 * 50 <= u32::MAX
            &&& forall|i: int|
                0 <= i < self.attrs.rx_chunk_hardness@.len() ==> !((
                #[trigger] self.attrs.rx_chunk_hardness@[i])@ is Nan)
        }
    }

    /// Whether the minutes of the map can be counted, where they are.
    pub open spec fn minutes_fit(self) -> bool {
        &&& self.mods.rx ==> self.attrs.local_sr_per_minute@.len() <= u32::MAX
        &&& self.mods.ap ==> self.attrs.local_autopilot_sr_per_minute@.len() <= i32::MAX
    }

    /// Whether aim is rated at all.
    pub open spec fn rates_aim(self) -> bool {
        !(self.mods.ap && !self.mods.fl)
    }

    /// Whether speed is rated at all.
    pub open spec fn rates_speed(self, speed_deviation: Option<Value>) -> bool {
        speed_deviation is Some && !self.mods.rx
    }

    /// Whether the score can be one on the map, and is not too large to count. Of an
    /// empty score, and of what is not looked at, nothing is asked.
    pub open spec fn valid(self, t: Table) -> bool {
        let penalty = self.penalty_misses_of(
            self.counted_misses_of(t, self.calculate_combo_based_estimated_miss_count_of()),
        );
        let rates = self.rates_aim() || self.rates_speed(self.calculate_speed_deviation_of(t));
        &&& self.countable()
        &&& self.state.hitresults.total() > 0 ==> {
            &&& self.timing_fits()
            &&& self.combo_fits()
            &&& self.rates_aim() && self.rates_sliders() ==> self.sliders_fit()
            &&& rates && exactly(0).below(penalty) ==> self.ticks_fit()
            &&& self.placing_fits()
            &&& self.minutes_fit()
        }
    }

    /// What the score is worth, given what the standalone systems say.
    pub open spec fn rated_of(
        self,
        t: Table,
        score_based: Option<Value>,
        ap_mult: Value,
        nf_mult: Value,
    ) -> Rated {
        let combo_based = self.calculate_combo_based_estimated_miss_count_of();
        let effective = self.counted_misses_of(
            t,
            match score_based {
                Some(misses) => misses,
                None => combo_based,
            },
        );
        let penalty = self.penalty_misses_of(effective);
        let deviation = self.calculate_speed_deviation_of(t);
        let (aim, aim_breaks) = self.compute_aim_value_of(t, penalty);
        let (speed, speed_breaks) = self.compute_speed_value_of(t, deviation, penalty);
        let skills = Worth {
            aim,
            speed: speed * self.speed_rework_of(),
            acc: self.compute_accuracy_value_of(t),
            flashlight: self.compute_flashlight_value_of(t, penalty),
        };
        let missed = self.after_misses_of(
            t,
            self.over_minutes_of(t, skills),
            effective,
            ap_mult,
            nf_mult,
        );
        let nerfed = self.map_nerfs_of(missed);
        let all = Totals { pp: self.combined_of(t, nerfed), worth: nerfed };
        let steady = if self.mods.ap {
            all
        } else {
            all.scaled_of(
                Self::calculate_consistency_multiplier_of(
                    self.attrs.consistency_strictness@,
                    deviation,
                ),
            )
        };
        let touched = if self.mods.td {
            steady.scaled_of(near(90, 100))
        } else {
            steady
        };
        Rated {
            pp: touched.pp,
            worth: touched.worth,
            effective_miss_count: effective,
            speed_deviation: deviation,
            combo_based_estimated_miss_count: combo_based,
            score_based_estimated_miss_count: score_based,
            aim_estimated_slider_breaks: aim_breaks,
            speed_estimated_slider_breaks: speed_breaks,
        }
    }

    /// What an empty score is worth.
    pub open spec fn nothing() -> Rated {
        Rated {
            pp: exactly(0),
            worth: Worth {
                aim: exactly(0),
                speed: exactly(0),
                acc: exactly(0),
                flashlight: exactly(0),
            },
            effective_miss_count: exactly(0),
            speed_deviation: None,
            combo_based_estimated_miss_count: exactly(0),
            score_based_estimated_miss_count: None,
            aim_estimated_slider_breaks: exactly(0),
            speed_estimated_slider_breaks: exactly(0),
        }
    }

    /// Whether the misses are estimated by the total score.
    pub open spec fn uses_total_score(self) -> bool {
        self.using_classic_slider_acc && self.state.legacy_total_score is Some
    }
}

impl OsuPerformanceCalculator {
    /// The number of objects that were hit, well or not.
    pub fn total_successful_hits(&self) -> (r: u32)
        requires
            self.state.hitresults.total() <= u32::MAX,
        ensures
            r == self.total_successful_hits_of(),
    {
        self.state.hitresults.n300 + self.state.hitresults.n100 + self.state.hitresults.n50
    }

    /// The number of objects that were not hit perfectly.
    pub fn total_imperfect_hits(&self) -> (r: Double)
        requires
            self.state.hitresults.total() <= u32::MAX,
        ensures
            r@ == self.total_imperfect_hits_of(),
    {
        whole(
            (self.state.hitresults.n100 + self.state.hitresults.n50
                + self.state.hitresults.misses) as u64,
        )
    }

    /// The number of objects that were judged.
    pub fn total_hits(&self) -> (r: Double)
        requires
            self.state.hitresults.total() <= u32::MAX,
        ensures
            r@ == self.total_hits_of(),
    {
        whole(self.state.hitresults.total_hits() as u64)
    }

    /// The number of slider ends that were dropped.
    pub fn n_slider_ends_dropped(&self) -> (r: u32)
        requires
            self.state.hitresults.slider_end_hits <= self.attrs.n_sliders,
        ensures
            r == self.n_slider_ends_dropped_of(),
    {
        self.attrs.n_sliders - self.state.hitresults.slider_end_hits
    }

    /// The number of large ticks that were missed, which classic scores do not tell.
    pub fn n_large_tick_miss(&self) -> (r: u32)
        requires
            !self.using_classic_slider_acc ==> self.state.hitresults.large_tick_hits
                <= self.attrs.n_large_ticks,
        ensures
            r == self.n_large_tick_miss_of(),
    {
        if self.using_classic_slider_acc {
            0
        } else {
            self.attrs.n_large_ticks - self.state.hitresults.large_tick_hits
        }
    }

    /// Fewer breaks than the estimate adds to the misses fit beside them.
    proof fn lemma_few_breaks(self, by_combo: Value, breaks: u32)
        requires
            self.countable(),
            proper(by_combo),
            exactly(breaks as nat).below(
                by_combo.lesser(self.total_imperfect_hits_of()) - exactly(
                    self.state.hitresults.misses as nat,
                ),
            ),
        ensures
            self.state.hitresults.misses + breaks <= u32::MAX,
    {
        let misses = self.state.hitresults.misses as nat;
        let others = (self.state.hitresults.n100 + self.state.hitresults.n50) as nat;
        let imperfect = self.total_imperfect_hits_of();
        let count = by_combo.lesser(imperfect);
        lemma_whole_place(misses);
        lemma_whole_place(others);
        lemma_whole_place(others + misses);
        lemma_whole_place(breaks as nat);
        if by_combo is Nan {
            reveal(Value::lesser);
            assert(count == imperfect);
        } else {
            lemma_lesser(by_combo, imperfect);
        }
        lemma_minus_order(count, imperfect, exactly(misses));
        lemma_minus(count, exactly(misses));
        lemma_minus(imperfect, exactly(misses));
        assert((others + misses) * one_units() - misses * one_units() == others * one_units())
            by (nonlinear_arith);
        lemma_settle_fits(exactly(others));
        lemma_order(exactly(breaks as nat), count - exactly(misses));
        assert(breaks < others) by (nonlinear_arith)
            requires
                breaks * one_units() < others * one_units(),
        ;
    }

    /// How many misses the combo gives away.
    pub fn calculate_combo_based_estimated_miss_count(&self) -> (r: Double)
        requires
            self.countable(),
            self.combo_fits(),
        ensures
            r@ == self.calculate_combo_based_estimated_miss_count_of(),
    {
        let misses = whole(self.state.hitresults.misses as u64);
        let combo = whole(self.state.max_combo as u64);
        if self.attrs.n_sliders == 0 {
            misses
        } else if self.using_classic_slider_acc {
            // Dropped slider ends do not break the combo; a tenth of them is assumed.
            let full_combo_threshold = whole(self.attrs.max_combo as u64) - ratio(1, 10) * whole(
                self.attrs.n_sliders as u64,
            );
            let by_combo = if combo.below(full_combo_threshold) {
                full_combo_threshold / combo.greater(whole(1))
            } else {
                misses
            };
            let count = by_combo.lesser(self.total_imperfect_hits());
            // A broken slider costs at least two of the combo.
            let max_possible_slider_breaks = self.possible_slider_breaks();
            if whole(max_possible_slider_breaks as u64).below(count - misses) {
                proof {
                    law_patterns_are_values(by_combo);
                    self.lemma_few_breaks(by_combo@, max_possible_slider_breaks);
                }
                whole((self.state.hitresults.misses + max_possible_slider_breaks) as u64)
            } else {
                count
            }
        } else {
            let full_combo_threshold = whole(
                (self.attrs.max_combo - self.n_slider_ends_dropped()) as u64,
            );
            let by_combo = if combo.below(full_combo_threshold) {
                full_combo_threshold / combo.greater(whole(1))
            } else {
                misses
            };
            by_combo.lesser(
                whole((self.n_large_tick_miss() + self.state.hitresults.misses) as u64),
            )
        }
    }

    /// How many sliders can have been broken, by the combo.
    pub fn possible_slider_breaks(&self) -> (r: u32)
        ensures
            r == self.possible_slider_breaks_of(),
    {
        let lost: u32 = if self.attrs.max_combo > self.state.max_combo {
            (self.attrs.max_combo - self.state.max_combo) / 2
        } else {
            0
        };
        if self.attrs.n_sliders < lost {
            self.attrs.n_sliders
        } else {
            lost
        }
    }

    /// How many sliders a classic score broke, by its Oks and combo.
    pub fn calculate_estimated_slider_breaks<F: Fn(Query<Double>) -> Double>(
        &self,
        math: &Math<F>,
        top_weighted_slider_factor: Double,
        effective_miss_count: Double,
    ) -> (r: Double)
        requires
            math.sound(),
        ensures
            r@ == self.calculate_estimated_slider_breaks_of(
                math@,
                top_weighted_slider_factor@,
                effective_miss_count@,
            ),
    {
        if !self.using_classic_slider_acc || self.state.hitresults.n100 == 0 {
            whole(0)
        } else {
            let n100 = whole(self.state.hitresults.n100 as u64);
            let missed_combo_percent = whole(1) - whole(self.state.max_combo as u64) / whole(
                self.attrs.max_combo as u64,
            );
            let breaks = (effective_miss_count * top_weighted_slider_factor).lesser(n100);
            // Scores with more Oks are more likely to have slider breaks.
            let ok_adjustment = ((n100 - breaks) + ratio(5, 10)) / n100;
            // A miss count close to one leaves little room for further breaks.
            let likely = breaks * math.smoothstep(effective_miss_count, whole(1), whole(2));
            likely * ok_adjustment * math.logistic(
                missed_combo_percent,
                ratio(33, 100),
                whole(15),
                None,
            )
        }
    }

    /// The deviation of the taps on speed notes, taking all mistakes to be there.
    pub fn calculate_speed_deviation<F: Fn(Query<Double>) -> Double>(
        &self,
        math: &Math<F>,
    ) -> (r: Option<Double>)
        requires
            math.sound(),
            self.state.hitresults.total() <= u32::MAX,
        ensures
            optional(r) == self.calculate_speed_deviation_of(math@),
    {
        if self.total_successful_hits() == 0 {
            None
        } else {
            let h = self.state.hitresults;
            let notes = self.attrs.speed_note_count
                + (self.total_hits() - self.attrs.speed_note_count)
                * ratio(1, 10);
            let miss = whole(h.misses as u64).lesser(notes);
            let meh = whole(h.n50 as u64).lesser(notes - miss);
            let ok = whole(h.n100 as u64).lesser(notes - miss - meh);
            let great = whole(0).greater(notes - miss - meh - ok);
            self.calculate_deviation(math, great, ok, meh)
        }
    }

    /// The deviation of taps by how many of them were Greats, Oks and Mehs.
    pub fn calculate_deviation<F: Fn(Query<Double>) -> Double>(
        &self,
        math: &Math<F>,
        relevant_count_great: Double,
        relevant_count_ok: Double,
        relevant_count_meh: Double,
    ) -> (r: Option<Double>)
        requires
            math.sound(),
        ensures
            optional(r) == self.calculate_deviation_of(
                math@,
                relevant_count_great@,
                relevant_count_ok@,
                relevant_count_meh@,
            ),
    {
        let counted = relevant_count_great + relevant_count_ok + relevant_count_meh;
        if counted.at_most(whole(0)) {
            None
        } else {
            // The proportion of hits that were Greats, and what it is at least with a
            // confidence of 99%.
            let n = whole(1).greater(relevant_count_great + relevant_count_ok);
            let p = relevant_count_great / n;
            let z = ratio(232_634_787_404, 100_000_000_000);
            let p_lower_bound = ((n * p + z * z / whole(2)) / (n + z * z) - z / (n + z * z)
                * (n * p * (
            whole(1) - p) + z * z / whole(4)).root()).lesser(p);
            let ok_window = self.attrs.ok_hit_window;
            let meh_window = self.attrs.meh_hit_window;
            let inner = if ratio(1, 100).below(p_lower_bound) {
                let raw = self.attrs.great_hit_window
                    / (whole(2).root() * math.erf_inv(p_lower_bound));
                // The normal distribution is cut off at the window for Oks.
                let tail = (whole(2) / circle_ratio()).root() * ok_window * math.exp(
                    ratio(5, 10).negated() * math.power(ok_window / raw, whole(2)),
                ) / (raw * math.erf(ok_window / (whole(2).root() * raw)));
                raw * (whole(1) - tail).root()
            } else {
                ok_window / whole(3).root()
            };
            // Mehs are taken to be uniformly distributed.
            let meh_variance = (meh_window * meh_window + ok_window * meh_window + ok_window
                * ok_window)
                / whole(3);
            Some(
                (((relevant_count_great + relevant_count_ok) * math.power(inner, whole(2))
                    + relevant_count_meh * meh_variance) / counted).root(),
            )
        }
    }

    /// How much of speed remains where it was tapped unevenly.
    pub fn calculate_speed_high_deviation_nerf<F: Fn(Query<Double>) -> Double>(
        &self,
        math: &Math<F>,
        speed_deviation: Double,
    ) -> (r: Double)
        requires
            math.sound(),
        ensures
            r@ == self.calculate_speed_high_deviation_nerf_of(math@, speed_deviation@),
    {
        let speed_value = math.speed_performance(self.attrs.speed);
        let cutoff = whole(100) + whole(220) * math.power(
            whole(22) / speed_deviation,
            ratio(65, 10),
        );
        if speed_value.at_most(cutoff) {
            whole(1)
        } else {
            let scale = whole(50);
            let adjusted = scale
                * (math.ln((speed_value - cutoff) / scale + whole(1)) + cutoff / scale);
            let share = whole(1) - math.reverse_lerp(speed_deviation, whole(22), whole(27));
            math.lerp(adjusted, speed_value, share) / speed_value
        }
    }

    /// How much of a score remains for its unstable timing on a strict map: from 88%
    /// to all of it.
    pub fn calculate_consistency_multiplier(
        strictness: Double,
        speed_deviation: Option<Double>,
    ) -> (r: Double)
        ensures
            r@ == Self::calculate_consistency_multiplier_of(strictness@, optional(speed_deviation)),
    {
        match speed_deviation {
            Some(speed_deviation) => {
                let excess_ur = (speed_deviation * whole(10) - whole(10)).greater(whole(0));
                let ur_factor = (excess_ur / whole(40)).clamped(whole(0), whole(1));
                (whole(1) - ratio(12, 100) * strictness * ur_factor).clamped(
                    ratio(88, 100),
                    whole(1),
                )
            },
            None => whole(1),
        }
    }

    /// How much of a skill remains after misses, less where few sections are hard.
    pub fn calculate_miss_penalty<F: Fn(Query<Double>) -> Double>(
        math: &Math<F>,
        miss_count: Double,
        diff_strain_count: Double,
    ) -> (r: Double)
        requires
            math.sound(),
        ensures
            r@ == Self::calculate_miss_penalty_of(math@, miss_count@, diff_strain_count@),
    {
        ratio(96, 100) / (miss_count / (whole(4) * math.power(
            math.ln(diff_strain_count),
            ratio(94, 100),
        ))
            + whole(1))
    }

    /// The bonus for length, in proportion to the square of the accuracy.
    pub fn length_bonus<F: Fn(Query<Double>) -> Double>(
        math: &Math<F>,
        total_hits: Double,
        accuracy: Double,
    ) -> (r: Double)
        requires
            math.sound(),
        ensures
            r@ == Self::length_bonus_of(math@, total_hits@, accuracy@),
    {
        let base = ratio(95, 100);
        let long = if whole(2000).below(total_hits) {
            whole(1)
        } else {
            whole(0)
        };
        let raw = base + ratio(4, 10) * (total_hits / whole(2000)).lesser(whole(1)) + long
            * math.log10(
            total_hits / whole(2000),
        ) * ratio(5, 10);
        base + (raw - base) * math.power(accuracy.clamped(whole(0), whole(1)), whole(2))
    }

    /// How much of a skill remains after misses on a map that is lenient on timing.
    pub fn low_od_miss_multiplier<F: Fn(Query<Double>) -> Double>(
        math: &Math<F>,
        misses: Double,
        od: Double,
    ) -> (r: Double)
        requires
            math.sound(),
        ensures
            r@ == Self::low_od_miss_multiplier_of(math@, misses@, od@),
    {
        if misses.at_most(whole(0)) || whole(7).at_most(od) {
            whole(1)
        } else {
            let severity = ((whole(7) - od) / whole(7)).clamped(whole(0), whole(1));
            math.power(whole(1) - ratio(14, 100) * severity, misses).greater(ratio(30, 100))
        }
    }

    /// How much of flashlight remains for a combo.
    pub fn get_combo_scaling_factor<F: Fn(Query<Double>) -> Double>(
        &self,
        math: &Math<F>,
    ) -> (r: Double)
        requires
            math.sound(),
        ensures
            r@ == self.get_combo_scaling_factor_of(math@),
    {
        if self.attrs.max_combo == 0 {
            whole(1)
        } else {
            (math.power(whole(self.state.max_combo as u64), ratio(8, 10)) / math.power(
                whole(self.attrs.max_combo as u64),
                ratio(8, 10),
            )).lesser(whole(1))
        }
    }

    /// A light tax on a combo that is not full.
    pub fn combo_ratio_tax<F: Fn(Query<Double>) -> Double>(&self, math: &Math<F>) -> (r: Double)
        requires
            math.sound(),
        ensures
            r@ == self.combo_ratio_tax_of(math@),
    {
        if self.attrs.max_combo == 0 {
            whole(1)
        } else {
            let share = (whole(self.state.max_combo as u64) / whole(
                self.attrs.max_combo as u64,
            )).clamped(whole(0), whole(1));
            (ratio(85, 100) + ratio(15, 100) * math.power(share, ratio(35, 100))).lesser(whole(1))
        }
    }

    /// How much of a score remains for where its misses were.
    ///
    /// A miss early on a long map is more damaging than the same miss after most of
    /// the map is done. The factor is relative to the full combo of the map and
    /// leaves full combos untouched.
    pub fn miss_combo_multiplier<F: Fn(Query<Double>) -> Double>(
        math: &Math<F>,
        map_max_combo: u32,
        player_max_combo: u32,
        effective_miss_count: Double,
    ) -> (r: Double)
        requires
            math.sound(),
        ensures
            r@ == Self::miss_combo_multiplier_of(
                math@,
                map_max_combo,
                player_max_combo,
                effective_miss_count@,
            ),
    {
        if effective_miss_count.at_most(whole(0)) || map_max_combo == 0 {
            whole(1)
        } else {
            let combo_ratio = (whole(player_max_combo as u64)
                / whole(map_max_combo as u64)).clamped(
                whole(0),
                whole(1),
            );
            (ratio(75, 100) + ratio(25, 100) * math.power(combo_ratio, ratio(7, 10))).clamped(
                ratio(75, 100),
                whole(1),
            )
        }
    }

    /// How many misses the Mehs of a score are worth: all of them up to OD 1, none
    /// from OD 10 on; all of them from AR 9 on, none up to AR 7; and ever fewer from
    /// a combo of 1300 to one of 10000. Easy and NoFail take them off.
    pub fn n50_misses<F: Fn(Query<Double>) -> Double>(&self, math: &Math<F>) -> (r: Double)
        requires
            math.sound(),
        ensures
            r@ == self.n50_misses_of(math@),
    {
        let n50 = self.state.hitresults.n50;
        let od = self.attrs.od;
        let ar = self.attrs.ar;
        if self.mods.ez || self.mods.nf || n50 == 0 {
            whole(0)
        } else {
            let od_factor = if od.at_most(whole(1)) {
                whole(1)
            } else {
                math.power((whole(10) - od) / whole(9), whole(3)).clamped(whole(0), whole(1))
            };
            let ar_factor = if whole(9).at_most(ar) {
                whole(1)
            } else if whole(7).at_most(ar) {
                (ar - whole(7)) / whole(2)
            } else {
                whole(0)
            };
            let combo_factor = if self.attrs.max_combo >= 1300 {
                (whole(1) - (whole(self.attrs.max_combo as u64) - whole(1300)) / (whole(10000)
                    - whole(1300))).clamped(whole(0), whole(1))
            } else {
                whole(1)
            };
            whole(n50 as u64) * od_factor * ar_factor * combo_factor
        }
    }

    /// How much of a score remains for its consistency: it falls exponentially with
    /// the misses, more gently on long maps. Relax, Autopilot and NoFail have systems
    /// of their own and bypass this.
    pub fn apply_cc_v3_multiplier<F: Fn(Query<Double>) -> Double>(
        &self,
        math: &Math<F>,
        effective_miss_count: Double,
    ) -> (r: Double)
        requires
            math.sound(),
        ensures
            r@ == self.apply_cc_v3_multiplier_of(math@, effective_miss_count@),
    {
        let misses = effective_miss_count + self.n50_misses(math);
        if (effective_miss_count.at_most(whole(0)) && self.state.hitresults.n50 == 0)
            || self.mods.rx
            || self.mods.ap || self.mods.nf || misses.at_most(whole(0)) {
            whole(1)
        } else {
            let combo = whole(self.attrs.max_combo as u64);
            let base_exp = ratio(21, 10) + ratio(9, 10)
                * (whole(1) - math.exp(misses.negated() / whole(8)));
            let combo_softening = whole(1) - ratio(15, 100) * ((combo - whole(1000)) / whole(
                4000,
            )).clamped(whole(0), whole(1));
            let miss_weight = math.power(misses, base_exp * combo_softening);
            let acc_relief = whole(0) * ((self.acc - ratio(95, 100)) / ratio(5, 100)).clamped(
                whole(0),
                whole(1),
            ) * (combo / whole(4000)).clamped(whole(0), whole(1));
            (math.power(ratio(998, 1000), miss_weight) + acc_relief).lesser(whole(1))
        }
    }

    /// How much of the aim of a map counts under Autopilot: what has long jumps at a
    /// high tempo.
    pub fn autopilot_aim_factor(&self) -> (r: Double)
        ensures
            r@ == self.autopilot_aim_factor_of(),
    {
        let jump_factor = ((self.attrs.avg_jump_dist - whole(80)) / whole(120)).clamped(
            whole(0),
            whole(1),
        );
        let bpm = if whole(0).below(self.attrs.median_delta_time) {
            whole(15_000) / self.attrs.median_delta_time
        } else {
            whole(0)
        };
        let bpm_factor = ((bpm - whole(180)) / whole(100)).clamped(whole(0), whole(1));
        ratio(20, 100) + ratio(80, 100) * jump_factor * bpm_factor
    }

    /// How many difficult sliders were not followed properly: for a classic score all
    /// of the missing combo, else the dropped ends and missed ticks.
    pub fn dropped_difficult_sliders(&self) -> (r: Double)
        requires
            self.countable(),
            self.sliders_fit(),
        ensures
            r@ == self.dropped_difficult_sliders_of(),
    {
        let dropped = if self.using_classic_slider_acc {
            self.total_imperfect_hits().lesser(
                whole((self.attrs.max_combo - self.state.max_combo) as u64),
            )
        } else {
            whole((self.n_slider_ends_dropped() + self.n_large_tick_miss()) as u64)
        };
        dropped.clamped(whole(0), self.attrs.aim_difficult_slider_count)
    }

    /// The misses that a skill is judged by: slider breaks count, up to what was not
    /// hit perfectly.
    pub fn relevant_misses(&self, breaks: Double, effective_miss_count: Double) -> (r: Double)
        requires
            self.countable(),
            self.ticks_fit(),
        ensures
            r@ == self.relevant_misses_of(breaks@, effective_miss_count@),
    {
        (effective_miss_count + breaks).lesser(
            self.total_imperfect_hits() + whole(self.n_large_tick_miss() as u64),
        )
    }

    /// What aim is worth, and how many slider breaks are held against it.
    pub fn compute_aim_value<F: Fn(Query<Double>) -> Double>(
        &self,
        math: &Math<F>,
        effective_miss_count: Double,
    ) -> (r: (Double, Double))
        requires
            math.sound(),
            self.countable(),
            self.rates_aim() && self.rates_sliders() ==> self.sliders_fit(),
            self.rates_aim() && exactly(0).below(effective_miss_count@) ==> self.ticks_fit(),
        ensures
            (r.0@, r.1@) == self.compute_aim_value_of(math@, effective_miss_count@),
    {
        if self.mods.ap && !self.mods.fl {
            (whole(0), whole(0))
        } else {
            let tempered = if self.mods.ap {
                self.attrs.aim * self.autopilot_aim_factor()
            } else {
                self.attrs.aim
            };
            let difficulty = if self.attrs.n_sliders > 0
                && whole(0).below(self.attrs.aim_difficult_slider_count) {
                let dropped = self.dropped_difficult_sliders();
                let slider_nerf_factor = (whole(1) - self.attrs.slider_factor) * math.power(
                    whole(1) - dropped / self.attrs.aim_difficult_slider_count,
                    whole(3),
                ) + self.attrs.slider_factor;
                tempered * slider_nerf_factor
            } else {
                tempered
            };
            let density = if whole(0).below(self.attrs.density_multiplier) {
                self.attrs.density_multiplier
            } else {
                whole(1)
            };
            let total_hits = self.total_hits();
            let clean = math.aim_performance(difficulty) * density * Self::length_bonus(
                math,
                total_hits,
                self.acc,
            );
            let (missed, breaks) = if whole(0).below(effective_miss_count) {
                let breaks = self.calculate_estimated_slider_breaks(
                    math,
                    self.attrs.aim_top_weighted_slider_factor,
                    effective_miss_count,
                );
                let relevant = self.relevant_misses(breaks, effective_miss_count);
                (
                    clean * Self::calculate_miss_penalty(
                        math,
                        relevant,
                        self.attrs.aim_difficult_strain_count,
                    ) * Self::low_od_miss_multiplier(math, relevant, self.attrs.od),
                    breaks,
                )
            } else {
                (clean, whole(0))
            };
            let seen = if self.mods.bl {
                missed * (ratio(13, 10) + (total_hits * (ratio(16, 10_000) / (whole(1) + whole(2)
                    * effective_miss_count)) * math.power(self.acc, whole(16))) * (whole(1) - ratio(
                    3,
                    1000,
                ) * self.attrs.hp * self.attrs.hp))
            } else if self.mods.tc {
                missed * (whole(1) + math.visibility_bonus(
                    self.mods,
                    self.attrs.ar,
                    Some(self.attrs.slider_factor),
                ))
            } else {
                missed
            };
            (seen * self.acc, breaks)
        }
    }

    /// The accuracy on speed notes, taking the other notes to be perfect.
    pub fn speed_note_accuracy<F: Fn(Query<Double>) -> Double>(&self, math: &Math<F>) -> (r: Double)
        requires
            math.sound(),
            self.state.hitresults.total() <= u32::MAX,
        ensures
            r@ == self.speed_note_accuracy_of(math@),
    {
        let h = self.state.hitresults;
        let n300 = whole(h.n300 as u64);
        let others = whole(0).greater(self.total_hits() - self.attrs.speed_note_count);
        let relevant_n300 = (n300 - others).greater(whole(0));
        let relevant_n100 = (whole(h.n100 as u64) - (others - n300).greater(whole(0))).greater(
            whole(0),
        );
        let relevant_n50 = (whole(h.n50 as u64)
            - (others - whole((h.n300 + h.n100) as u64)).greater(
            whole(0),
        )).greater(whole(0));
        if math.same(self.attrs.speed_note_count, whole(0)) {
            whole(0)
        } else {
            (relevant_n300 * whole(6) + relevant_n100 * whole(2) + relevant_n50) / (
            self.attrs.speed_note_count * whole(6))
        }
    }

    /// What speed is worth, and how many slider breaks are held against it.
    pub fn compute_speed_value<F: Fn(Query<Double>) -> Double>(
        &self,
        math: &Math<F>,
        speed_deviation: Option<Double>,
        effective_miss_count: Double,
    ) -> (r: (Double, Double))
        requires
            math.sound(),
            self.countable(),
            self.rates_speed(optional(speed_deviation)) && exactly(0).below(effective_miss_count@)
                ==> self.ticks_fit(),
        ensures
            (r.0@, r.1@) == self.compute_speed_value_of(
                math@,
                optional(speed_deviation),
                effective_miss_count@,
            ),
    {
        match speed_deviation {
            Some(speed_deviation) => if self.mods.rx {
                (whole(0), whole(0))
            } else {
                let clean = math.speed_performance(self.attrs.speed) * Self::length_bonus(
                    math,
                    self.total_hits(),
                    self.acc,
                );
                let (missed, breaks) = if whole(0).below(effective_miss_count) {
                    let breaks = self.calculate_estimated_slider_breaks(
                        math,
                        self.attrs.speed_top_weighted_slider_factor,
                        effective_miss_count,
                    );
                    let relevant = self.relevant_misses(breaks, effective_miss_count);
                    (
                        clean * Self::calculate_miss_penalty(
                            math,
                            relevant,
                            self.attrs.speed_difficult_strain_count,
                        ) * Self::low_od_miss_multiplier(math, relevant, self.attrs.od),
                        breaks,
                    )
                } else {
                    (clean, whole(0))
                };
                let seen = if self.mods.bl {
                    missed * ratio(112, 100)
                } else if self.mods.tc {
                    missed * (whole(1) + math.visibility_bonus(self.mods, self.attrs.ar, None))
                } else {
                    missed
                };
                let even = seen * self.calculate_speed_high_deviation_nerf(math, speed_deviation);
                (
                    even * math.power(
                        (self.acc + self.speed_note_accuracy(math)) / whole(2),
                        (ratio(145, 10) - self.attrs.od) / whole(2),
                    ),
                    breaks,
                )
            },
            None => (whole(0), whole(0)),
        }
    }

    /// The number of objects whose timing counts.
    pub fn timed_objects(&self) -> (r: u32)
        requires
            self.timed_objects_of() <= u32::MAX,
        ensures
            r == self.timed_objects_of(),
    {
        if self.using_classic_slider_acc {
            self.attrs.n_circles
        } else {
            self.attrs.n_circles + self.attrs.n_sliders
        }
    }

    /// The points of the objects whose timing counts, six for a Great, taking the
    /// other objects to be Greats.
    pub fn timing_points(&self) -> (r: i64)
        requires
            self.countable(),
            self.timed_objects_of() <= u32::MAX,
        ensures
            r == self.timing_points_of(),
    {
        let h = self.state.hitresults;
        let others: i64 = h.total_hits() as i64 - self.timed_objects() as i64;
        (h.n300 as i64 - if others > 0 {
            others
        } else {
            0
        }) * 6 + h.n100 as i64 * 2 + h.n50 as i64
    }

    /// The accuracy on the objects whose timing counts, not below zero.
    pub fn better_accuracy(&self) -> (r: Double)
        requires
            self.countable(),
            self.timing_fits(),
        ensures
            r@ == self.better_accuracy_of(),
    {
        if self.timed_objects() <= 0 || self.timing_points() <= 0 {
            whole(0)
        } else {
            whole(self.timing_points() as u64) / whole(self.timed_objects() as u64 * 6)
        }
    }

    /// What accuracy is worth.
    pub fn compute_accuracy_value<F: Fn(Query<Double>) -> Double>(
        &self,
        math: &Math<F>,
    ) -> (r: Double)
        requires
            math.sound(),
            self.countable(),
            self.timing_fits(),
        ensures
            r@ == self.compute_accuracy_value_of(math@),
    {
        let better_acc = self.better_accuracy();
        let objects = whole(self.timed_objects() as u64);
        let timed = math.power(ratio(152_163, 100_000), self.attrs.od)
            * math.power(better_acc, whole(24))
            * ratio(283, 100);
        let long = timed * math.power(objects / whole(1000), ratio(3, 10)).lesser(ratio(115, 100));
        let seen = if self.mods.bl {
            long * ratio(114, 100)
        } else if self.mods.hd || self.mods.tc {
            long * whole(1)
        } else {
            long
        };
        if self.mods.rx {
            seen * (ratio(62, 100) + ratio(18, 100) * math.power(better_acc, whole(10)))
        } else if self.mods.ap {
            seen * whole(1)
        } else if self.mods.fl {
            seen * ratio(102, 100)
        } else {
            seen * (ratio(75, 100) + ratio(25, 100) * math.power(better_acc, whole(10)))
        }
    }

    /// What flashlight is worth, with what had to be memorized.
    pub fn compute_flashlight_value<F: Fn(Query<Double>) -> Double>(
        &self,
        math: &Math<F>,
        effective_miss_count: Double,
    ) -> (r: Double)
        requires
            math.sound(),
            self.countable(),
        ensures
            r@ == self.compute_flashlight_value_of(math@, effective_miss_count@),
    {
        if !self.mods.fl {
            whole(0)
        } else {
            let total_hits = self.total_hits();
            let memory = Memory::performance_value(
                math,
                self.attrs.memory,
                self.acc,
                whole(self.state.max_combo as u64),
                whole(self.attrs.max_combo as u64),
                effective_miss_count,
                total_hits,
            );
            let clean = math.power(
                math.power(math.flashlight_performance(self.attrs.flashlight), ratio(11, 10))
                    + math.power(
                    memory,
                    ratio(11, 10),
                ),
                whole(1) / ratio(11, 10),
            );
            let missed = if whole(0).below(effective_miss_count) {
                clean * (ratio(97, 100) * math.power(
                    whole(1) - math.power(effective_miss_count / total_hits, ratio(775, 1000)),
                    math.power(effective_miss_count, ratio(875, 1000)),
                ))
            } else {
                clean
            };
            missed * self.get_combo_scaling_factor(math) * (ratio(5, 10) + self.acc / whole(2))
        }
    }

    /// The misses that count: at least those that were, at most the objects judged,
    /// and under Relax the Oks and Mehs as well, more of them the more lenient the map.
    pub fn counted_misses<F: Fn(Query<Double>) -> Double>(
        &self,
        math: &Math<F>,
        estimated: Double,
    ) -> (r: Double)
        requires
            math.sound(),
            self.countable(),
        ensures
            r@ == self.counted_misses_of(math@, estimated@),
    {
        let h = self.state.hitresults;
        let total_hits = self.total_hits();
        let od = self.attrs.od;
        let held = estimated.greater(whole(h.misses as u64)).lesser(total_hits);
        if self.mods.rx {
            let n100_mult = if whole(0).below(od) {
                ratio(75, 100) * (whole(1) - od / ratio(1333, 100)).greater(whole(0))
            } else {
                whole(1)
            };
            let n50_mult = if whole(0).below(od) {
                (whole(1) - math.power(od / ratio(1333, 100), whole(5))).greater(whole(0))
            } else {
                whole(1)
            };
            (held + whole(h.n100 as u64) * n100_mult + whole(h.n50 as u64)
                * n50_mult).lesser(total_hits)
        } else {
            held
        }
    }

    /// The misses that skills are penalized for.
    pub fn penalty_misses(&self, effective_miss_count: Double) -> (r: Double)
        requires
            self.countable(),
            self.placing_fits(),
        ensures
            r@ == self.penalty_misses_of(effective_miss_count@),
    {
        let h = self.state.hitresults;
        if self.mods.rx {
            rx_strain_weighted_misses(
                self.attrs.rx_chunk_hardness.as_slice(),
                h.n300,
                h.n100,
                h.n50,
                h.misses,
            )
        } else {
            effective_miss_count + whole(h.n50 as u64)
                * n50_effective_miss_multiplier(self.attrs.od)
        }
    }

    /// The factor on the whole score.
    pub fn base_factor<F: Fn(Query<Double>) -> Double>(&self, math: &Math<F>) -> (r: Double)
        requires
            math.sound(),
            self.countable(),
        ensures
            r@ == self.base_factor_of(math@),
    {
        let base = if self.mods.rx {
            whole(1)
        } else {
            ratio(92, 100)
        };
        if self.mods.so {
            base * (whole(1) - math.power(
                whole(self.attrs.n_spinners as u64) / self.total_hits(),
                ratio(85, 100),
            ))
        } else {
            base
        }
    }

    /// The factor on speed for how it is tapped.
    pub fn speed_rework(&self) -> (r: Double)
        ensures
            r@ == self.speed_rework_of(),
    {
        let mult = if self.mods.ap {
            self.attrs.speed_rework_mult_autopilot
        } else {
            self.attrs.speed_rework_mult_vanilla
        };
        if whole(0).below(mult) {
            mult
        } else {
            whole(1)
        }
    }

    /// The skills after the decay of repetitive maps under Relax or Autopilot, or the
    /// buff for sustained ones without them.
    pub fn over_minutes<F: Fn(Query<Double>) -> Double>(
        &self,
        math: &Math<F>,
        w: Worth<Double>,
    ) -> (r: Worth<Double>)
        requires
            math.sound(),
            self.minutes_fit(),
        ensures
            r@ == self.over_minutes_of(math@, w@),
    {
        let decayed = if self.mods.rx {
            let mult = self.relax_factor(math);
            Worth {
                aim: w.aim * math.power(mult, ratio(92, 100)),
                speed: w.speed,
                acc: w.acc,
                flashlight: w.flashlight * mult,
            }
        } else {
            w
        };
        if self.mods.ap {
            let mult = self.autopilot_factor(math);
            Worth {
                aim: decayed.aim,
                speed: decayed.speed * mult,
                acc: decayed.acc,
                flashlight: decayed.flashlight * math.power(mult, ratio(12, 10)),
            }
        } else if !self.mods.rx {
            let mult = self.marathon_factor(math);
            if whole(1).below(mult) {
                let softened = math.power(mult, ratio(88, 100));
                Worth {
                    aim: decayed.aim * softened,
                    speed: decayed.speed * softened,
                    acc: decayed.acc * softened,
                    flashlight: decayed.flashlight,
                }
            } else {
                decayed
            }
        } else {
            decayed
        }
    }

    /// How much remains of a repetitive map under Relax.
    pub fn relax_factor<F: Fn(Query<Double>) -> Double>(&self, math: &Math<F>) -> (r: Double)
        requires
            math.sound(),
            self.attrs.local_sr_per_minute@.len() <= u32::MAX,
        ensures
            r@ == self.relax_factor_of(math@),
    {
        relax_marathon_multiplier(
            math,
            self.attrs.local_sr_per_minute.as_slice(),
            self.attrs.local_bpm_per_minute.as_slice(),
            MarathonDecayParams::default(),
        )
    }

    /// How much remains of a repetitive map under Autopilot.
    pub fn autopilot_factor<F: Fn(Query<Double>) -> Double>(&self, math: &Math<F>) -> (r: Double)
        requires
            math.sound(),
            self.attrs.local_autopilot_sr_per_minute@.len() <= i32::MAX,
        ensures
            r@ == self.autopilot_factor_of(math@),
    {
        autopilot_marathon_multiplier(
            math,
            self.attrs.local_autopilot_sr_per_minute.as_slice(),
            self.attrs.local_bpm_per_minute.as_slice(),
            self.attrs.local_aim_per_minute.as_slice(),
            AutopilotDecayParams::default(),
        )
    }

    /// The buff for a map that stays hard.
    pub fn marathon_factor<F: Fn(Query<Double>) -> Double>(&self, math: &Math<F>) -> (r: Double)
        requires
            math.sound(),
        ensures
            r@ == self.marathon_factor_of(math@),
    {
        proof {
            lemma_near_order(1, 1, 110, 100);
            reveal(Value::whole);
            reveal(Value::ratio);
        }
        vanilla_marathon_multiplier(
            math,
            self.attrs.local_aim_per_minute.as_slice(),
            self.attrs.local_sr_per_minute.as_slice(),
            self.attrs.max_combo,
            self.state.max_combo,
            self.acc,
            VanillaMarathonParams::default(),
        )
    }

    /// The skills after the nerfs for lenient timing, for an approach rate between
    /// 10.1 and 10.5, and for small circles at a middling tempo.
    pub fn map_nerfs(&self, w: Worth<Double>) -> (r: Worth<Double>)
        ensures
            r@ == self.map_nerfs_of(w@),
    {
        let od = self.attrs.od;
        let ar = self.attrs.ar;
        let cs = self.attrs.cs;
        let md = self.attrs.median_delta_time;
        let acc = if od.below(whole(9)) && !self.mods.rx {
            w.acc * (whole(1) - ratio(73, 1000) * (whole(9) - od).lesser(whole(3)))
        } else {
            w.acc
        };
        let read = if ratio(101, 10).below(ar) && ar.at_most(ratio(105, 10)) && !self.mods.rx {
            let share = whole(1)
                - ((ar - ratio(103, 10)).absolute() / ratio(2, 10)).lesser(whole(1));
            w.aim * (whole(1) - ratio(6, 100) * share)
        } else {
            w.aim
        };
        let aim = if whole(0).below(md) && whole(176).at_most(md) && md.at_most(whole(250))
            && ratio(46, 10).at_most(cs) && cs.at_most(ratio(64, 10)) {
            let cs_t = whole(1) - ((cs - ratio(55, 10)).absolute() / ratio(9, 10)).lesser(whole(1));
            let bpm_t = whole(1) - ((whole(30_000) / md - whole(145)).absolute() / whole(
                25,
            )).lesser(whole(1));
            read * (whole(1) - ratio(10, 100) * cs_t * bpm_t)
        } else {
            read
        };
        Worth { aim, speed: w.speed, acc, flashlight: w.flashlight }
    }

    /// The skills after the systems for misses: consistency and combo, those of
    /// Autopilot and NoFail, and where in the map the misses were.
    pub fn after_misses<F: Fn(Query<Double>) -> Double>(
        &self,
        math: &Math<F>,
        w: Worth<Double>,
        effective_miss_count: Double,
        ap_mult: Double,
        nf_mult: Double,
    ) -> (r: Worth<Double>)
        requires
            math.sound(),
        ensures
            r@ == self.after_misses_of(math@, w@, effective_miss_count@, ap_mult@, nf_mult@),
    {
        let scale = self.apply_cc_v3_multiplier(math, effective_miss_count)
            * self.combo_ratio_tax(math);
        let consistent = w.scaled(scale);
        let piloted = if self.mods.ap {
            consistent.scaled(ap_mult)
        } else {
            consistent
        };
        let unfailed = if self.mods.nf {
            piloted.scaled(nf_mult)
        } else {
            piloted
        };
        unfailed.scaled(
            Self::miss_combo_multiplier(
                math,
                self.attrs.max_combo,
                self.state.max_combo,
                effective_miss_count,
            ),
        )
    }

    /// What a score with some skills is worth in all.
    pub fn combined<F: Fn(Query<Double>) -> Double>(
        &self,
        math: &Math<F>,
        w: Worth<Double>,
    ) -> (r: Double)
        requires
            math.sound(),
            self.countable(),
        ensures
            r@ == self.combined_of(math@, w@),
    {
        math.power(
            math.power(w.aim, ratio(105, 100)) + math.power(w.speed, ratio(90, 100))
                + math.power(w.acc, ratio(11, 10))
                + math.power(w.flashlight, ratio(11, 10)),
            whole(1) / ratio(11, 10),
        ) * self.base_factor(math)
    }

    /// A score on a map.
    pub fn new(
        attrs: OsuDifficultyAttributes,
        mods: GameMods,
        acc: Double,
        state: OsuScoreState,
        using_classic_slider_acc: bool,
    ) -> (r: Self)
        ensures
            r == (OsuPerformanceCalculator { attrs, mods, acc, state, using_classic_slider_acc }),
    {
        OsuPerformanceCalculator { attrs, mods, acc, state, using_classic_slider_acc }
    }

    /// What the score is worth, given the misses that its total score tells, where
    /// they are to be used, and the factors of the systems of Autopilot and NoFail,
    /// which count only under those.
    pub fn calculate_with<F: Fn(Query<Double>) -> Double>(
        self,
        math: &Math<F>,
        score_based: Option<Double>,
        ap_mult: Double,
        nf_mult: Double,
    ) -> (r: OsuPerformanceAttributes)
        requires
            math.sound(),
            self.valid(math@),
            score_based is Some ==> self.using_classic_slider_acc,
        ensures
            r.difficulty == self.attrs,
            rated(r) == if self.state.hitresults.total() == 0 {
                Self::nothing()
            } else {
                self.rated_of(math@, optional(score_based), ap_mult@, nf_mult@)
            },
    {
        if self.state.hitresults.total_hits() == 0 {
            return OsuPerformanceAttributes {
                difficulty: self.attrs,
                pp: whole(0),
                pp_acc: whole(0),
                pp_aim: whole(0),
                pp_flashlight: whole(0),
                pp_speed: whole(0),
                effective_miss_count: whole(0),
                speed_deviation: None,
                combo_based_estimated_miss_count: whole(0),
                score_based_estimated_miss_count: None,
                aim_estimated_slider_breaks: whole(0),
                speed_estimated_slider_breaks: whole(0),
            };
        }
        let combo_based = self.calculate_combo_based_estimated_miss_count();
        let estimated = match score_based {
            Some(misses) => misses,
            None => combo_based,
        };
        let effective = self.counted_misses(math, estimated);
        let penalty = self.penalty_misses(effective);
        let deviation = self.calculate_speed_deviation(math);
        let (aim, aim_breaks) = self.compute_aim_value(math, penalty);
        let (speed, speed_breaks) = self.compute_speed_value(math, deviation, penalty);
        let skills = Worth {
            aim,
            speed: speed * self.speed_rework(),
            acc: self.compute_accuracy_value(math),
            flashlight: self.compute_flashlight_value(math, penalty),
        };
        let sustained = self.over_minutes(math, skills);
        let missed = self.after_misses(math, sustained, effective, ap_mult, nf_mult);
        let nerfed = self.map_nerfs(missed);
        let mut pp = self.combined(math, nerfed);
        let mut worth = nerfed;
        if !self.mods.ap {
            let consistency_mult = Self::calculate_consistency_multiplier(
                self.attrs.consistency_strictness,
                deviation,
            );
            pp = pp * consistency_mult;
            worth = worth.scaled(consistency_mult);
        }
        if self.mods.td {
            pp = pp * ratio(90, 100);
            worth = worth.scaled(ratio(90, 100));
        }
        OsuPerformanceAttributes {
            difficulty: self.attrs,
            pp,
            pp_acc: worth.acc,
            pp_aim: worth.aim,
            pp_flashlight: worth.flashlight,
            pp_speed: worth.speed,
            effective_miss_count: effective,
            speed_deviation: deviation,
            combo_based_estimated_miss_count: combo_based,
            score_based_estimated_miss_count: score_based,
            aim_estimated_slider_breaks: aim_breaks,
            speed_estimated_slider_breaks: speed_breaks,
        }
    }

    /// What the score is worth. The standalone systems are asked only where they
    /// apply: the total score of a classic score for its misses, and the systems
    /// of Autopilot and NoFail for their factors.
    pub fn calculate<
        F: Fn(Query<Double>) -> Double,
        L: Fn(&OsuScoreState, Double, GameMods, &OsuDifficultyAttributes) -> Double,
        A: Fn(
            Double,
            Double,
            &Vec<Double>,
            &Vec<Double>,
            u32,
            u32,
            u32,
            u32,
            u32,
            u32,
        ) -> Double,
        N: Fn(u32, u32, u32, u32, u32, Double, Double) -> Double,
    >(
        self,
        math: &Math<F>,
        legacy_score_misses: L,
        ap_miss_multiplier: A,
        nf_multiplier: N,
    ) -> (r: OsuPerformanceAttributes)
        requires
            math.sound(),
            self.valid(math@),
            self.state.hitresults.total() > 0 && self.uses_total_score() ==> call_requires(
                legacy_score_misses,
                (&self.state, self.acc, self.mods, &self.attrs),
            ),
            self.state.hitresults.total() > 0 && self.mods.ap ==> call_requires(
                ap_miss_multiplier,
                (
                    self.attrs.od,
                    self.attrs.dominant_tap_bpm,
                    &self.attrs.rx_chunk_hardness,
                    &self.attrs.rx_chunk_avg_delta,
                    self.state.hitresults.n300,
                    self.state.hitresults.n100,
                    self.state.hitresults.n50,
                    self.state.hitresults.misses,
                    self.state.max_combo,
                    self.attrs.max_combo,
                ),
            ),
            self.state.hitresults.total() > 0 && self.mods.nf ==> call_requires(
                nf_multiplier,
                (
                    self.attrs.max_combo,
                    self.state.max_combo,
                    self.state.hitresults.misses,
                    self.state.hitresults.total() as u32,
                    self.attrs.n_objects,
                    self.acc,
                    self.attrs.hp,
                ),
            ),
        ensures
            r.difficulty == self.attrs,
            self.state.hitresults.total() == 0 ==> rated(r) == Self::nothing(),
            self.state.hitresults.total() > 0 ==> exists|
                score_based: Option<Double>,
                ap_mult: Double,
                nf_mult: Double,
            |
                {
                    &&& (score_based is Some) == self.uses_total_score()
                    &&& score_based matches Some(misses) ==> call_ensures(
                        legacy_score_misses,
                        (&self.state, self.acc, self.mods, &self.attrs),
                        misses,
                    )
                    &&& self.mods.ap ==> call_ensures(
                        ap_miss_multiplier,
                        (
                            self.attrs.od,
                            self.attrs.dominant_tap_bpm,
                            &self.attrs.rx_chunk_hardness,
                            &self.attrs.rx_chunk_avg_delta,
                            self.state.hitresults.n300,
                            self.state.hitresults.n100,
                            self.state.hitresults.n50,
                            self.state.hitresults.misses,
                            self.state.max_combo,
                            self.attrs.max_combo,
                        ),
                        ap_mult,
                    )
                    &&& self.mods.nf ==> call_ensures(
                        nf_multiplier,
                        (
                            self.attrs.max_combo,
                            self.state.max_combo,
                            self.state.hitresults.misses,
                            self.state.hitresults.total() as u32,
                            self.attrs.n_objects,
                            self.acc,
                            self.attrs.hp,
                        ),
                        nf_mult,
                    )
                    &&& rated(r) == #[trigger] self.rated_of(
                        math@,
                        optional(score_based),
                        ap_mult@,
                        nf_mult@,
                    )
                },
    {
        if self.state.hitresults.total_hits() == 0 {
            return self.calculate_with(math, None, whole(1), whole(1));
        }
        let score_based: Option<Double> = match self.state.legacy_total_score {
            Some(_) => if self.using_classic_slider_acc {
                Some(legacy_score_misses(&self.state, self.acc, self.mods, &self.attrs))
            } else {
                None
            },
            None => None,
        };
        let ap_mult = if self.mods.ap {
            ap_miss_multiplier(
                self.attrs.od,
                self.attrs.dominant_tap_bpm,
                &self.attrs.rx_chunk_hardness,
                &self.attrs.rx_chunk_avg_delta,
                self.state.hitresults.n300,
                self.state.hitresults.n100,
                self.state.hitresults.n50,
                self.state.hitresults.misses,
                self.state.max_combo,
                self.attrs.max_combo,
            )
        } else {
            whole(1)
        };
        let nf_mult = if self.mods.nf {
            nf_multiplier(
                self.attrs.max_combo,
                self.state.max_combo,
                self.state.hitresults.misses,
                self.state.hitresults.total_hits(),
                self.attrs.n_objects,
                self.acc,
                self.attrs.hp,
            )
        } else {
            whole(1)
        };
        self.calculate_with(math, score_based, ap_mult, nf_mult)
    }
}

} // verus!
