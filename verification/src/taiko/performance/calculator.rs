//! The worth of a score.
use vstd::prelude::*;

use crate::double::Double;
use crate::lists::{average, mean, values};
use crate::operators::{ratio, whole};
use crate::order::{
    finite, lemma_held, lemma_near_place, lemma_near_places, lemma_one, lemma_order, lemma_proper,
    lemma_times_share, lemma_whole_place, number, place,
};
use crate::query::{optional, GameMods, Math, Query, Table};
use crate::value::{exactly, near, one_units, Value};

verus! {

/// The difficulty of a map.
#[derive(Clone, Copy, Debug)]
pub struct TaikoDifficultyAttributes {
    pub stars: Double,
    pub rhythm: Double,
    pub mono_stamina_factor: Double,
    pub consistency_factor: Double,
    pub great_hit_window: Double,
    pub is_convert: bool,
}

/// How the notes of a map were hit.
#[derive(Clone, Copy, Debug)]
pub struct TaikoHitResults {
    pub n300: u32,
    pub n100: u32,
    pub misses: u32,
}

impl TaikoHitResults {
    /// The number of notes that were judged.
    pub open spec fn total(self) -> nat {
        (self.n300 + self.n100 + self.misses) as nat
    }

    /// The number of notes that were judged.
    pub fn total_hits(&self) -> (r: u32)
        requires
            self.total() <= u32::MAX,
        ensures
            r == self.total(),
    {
        self.n300 + self.n100 + self.misses
    }
}

/// A score.
#[derive(Clone, Copy, Debug)]
pub struct TaikoScoreState {
    pub max_combo: u32,
    pub hitresults: TaikoHitResults,
}

/// What a score is worth.
#[derive(Clone, Copy, Debug)]
pub struct TaikoPerformanceAttributes {
    pub difficulty: TaikoDifficultyAttributes,
    pub pp: Double,
    pub pp_acc: Double,
    pub pp_difficulty: Double,
    pub estimated_unstable_rate: Option<Double>,
}

/// The highest of a list of numbers, at least `from`.
pub open spec fn highest(from: Value, s: Seq<Value>) -> Value
    decreases s.len(),
{
    if s.len() == 0 {
        from
    } else {
        highest(from, s.drop_last()).greater(s.last())
    }
}

/// The lowest of a list of numbers, at most `from`.
pub open spec fn lowest(from: Value, s: Seq<Value>) -> Value
    decreases s.len(),
{
    if s.len() == 0 {
        from
    } else {
        lowest(from, s.drop_last()).lesser(s.last())
    }
}

/// The largest finite number.
pub open spec fn largest() -> Value {
    (Double { bits: 0x7fef_ffff_ffff_ffff })@
}

/// Of the first `n` gaps between times, the speed of the one whose middle is
/// closest to `time`, the first of several, and how far off that middle is.
pub open spec fn closest(times: Seq<Value>, time: Value, n: nat) -> (Value, Value)
    decreases n,
{
    if n == 0 {
        (exactly(80), largest())
    } else {
        let i = n - 1;
        let (speed, least) = closest(times, time, i as nat);
        let diff = (time - (times[i] + times[i + 1]) / exactly(2)).absolute();
        if diff.below(least) {
            (
                TaikoPerformanceCalculator::delta_to_effective_speed_of(times[i + 1] - times[i]),
                diff,
            )
        } else {
            (speed, least)
        }
    }
}

/// Rates a score on a map.
#[derive(Debug)]
pub struct TaikoPerformanceCalculator {
    pub attrs: TaikoDifficultyAttributes,
    pub mods: GameMods,
    pub state: TaikoScoreState,
    pub is_classic: bool,
    /// The times of the notes, in milliseconds.
    pub object_timestamps: Vec<Double>,
    /// The times of the misses, in milliseconds.
    pub miss_timestamps: Vec<Double>,
}

impl TaikoPerformanceCalculator {
    /// The number of objects that were judged.
    pub open spec fn total_hits_of(self) -> Value {
        exactly(self.state.hitresults.total())
    }

    /// The speed that a gap between notes takes, from 80 to 320; none where there is
    /// no gap.
    pub open spec fn delta_to_effective_speed_of(delta_ms: Value) -> Value {
        if delta_ms.at_most(exactly(0)) {
            exactly(0)
        } else {
            (exactly(15_000) / delta_ms).clamped(exactly(80), exactly(320))
        }
    }

    /// The speeds between all notes of the map; the lowest where there are not two.
    pub open spec fn compute_all_effective_speeds_of(self) -> Seq<Value> {
        let times = values(self.object_timestamps@);
        if times.len() < 2 {
            seq![exactly(80)]
        } else {
            Seq::new(
                (times.len() - 1) as nat,
                |i: int| Self::delta_to_effective_speed_of(times[i + 1] - times[i]),
            )
        }
    }

    /// The mean of the speeds.
    pub open spec fn estimate_average_effective_speed_of(self) -> Value {
        mean(self.compute_all_effective_speeds_of())
    }

    /// The highest of the speeds.
    pub open spec fn estimate_peak_effective_speed_of(self) -> Value {
        highest(exactly(80), self.compute_all_effective_speeds_of())
    }

    /// The lowest of the speeds.
    pub open spec fn lowest_effective_speed_of(self) -> Value {
        lowest(exactly(320), self.compute_all_effective_speeds_of())
    }

    /// The speed of the gap whose middle is closest to a time.
    pub open spec fn closest_speed_of(self, time: Value) -> Value {
        closest(values(self.object_timestamps@), time, (self.object_timestamps@.len() - 1) as nat).0
    }

    /// Whether a miss was in a slow section: near the lowest speed of the map, or far
    /// below its mean.
    pub open spec fn is_miss_on_slow_section_of(self, miss_time: Value) -> bool {
        if self.object_timestamps@.len() < 2 {
            false
        } else {
            let speed = self.closest_speed_of(miss_time);
            speed.at_most(self.lowest_effective_speed_of() * near(115, 100)) || speed.below(
                self.estimate_average_effective_speed_of() * near(7, 10),
            )
        }
    }

    /// The deviation that hits of an accuracy have at most, with a confidence of 99%.
    pub open spec fn compute_deviation_upper_bound_of(self, t: Table, accuracy: Value) -> Value {
        let z = near(232_634_787_404, 100_000_000_000);
        let n = self.total_hits_of();
        let p = accuracy;
        let p_lower_bound = (n * p + z * z / exactly(2)) / (n + z * z) - z / (n + z * z)
            * (n * p * (exactly(
            1,
        ) - p) + z * z / exactly(4)).root();
        self.attrs.great_hit_window@ / (exactly(2).root() * t.erf_inv(p_lower_bound))
    }

    /// What remains of a value after miss number `i`: nearly all of it where an
    /// accurate play with few misses slips in a slow section.
    pub open spec fn miss_factor_of(self, i: nat, standard_penalty: Value) -> Value {
        let accuracy = exactly(self.state.hitresults.n300 as nat) / self.total_hits_of();
        if i < self.miss_timestamps@.len() && near(94, 100).at_most(accuracy)
            && self.is_miss_on_slow_section_of(self.miss_timestamps@[i as int]@)
            && self.state.hitresults.misses <= 3 {
            near(9995, 10_000)
        } else {
            standard_penalty
        }
    }

    /// The part of the base difficulty that rhythm leaves.
    pub open spec fn rhythm_penalty_of(self, t: Table, unstable_rate: Value) -> Value {
        let expected = self.compute_deviation_upper_bound_of(t, exactly(1)) * exactly(10);
        let maximum = self.compute_deviation_upper_bound_of(t, near(8, 10)) * exactly(10);
        let rhythm_factor = t.reverse_lerp(
            self.attrs.rhythm@ / self.attrs.stars@,
            near(15, 100),
            near(4, 10),
        );
        exactly(1) - t.logistic(
            unstable_rate,
            (expected + maximum) / exactly(2),
            exactly(10) / (maximum - expected),
            Some(near(25, 100) * t.power(rhythm_factor, exactly(3))),
        )
    }

    /// What the difficulty of the map is worth before misses.
    pub open spec fn clean_difficulty_of(
        self,
        t: Table,
        unstable_rate: Value,
        length_bonus: Value,
    ) -> Value {
        let base = exactly(5) * exactly(1).greater(
            self.attrs.stars@ * self.rhythm_penalty_of(t, unstable_rate) / near(11, 100),
        ) - exactly(4);
        let raw = (t.power(base, exactly(3)) / near(6_905_251, 100)).lesser(
            t.power(base, near(225, 100)) / exactly(1250),
        );
        raw * (exactly(1) + near(10, 100) * exactly(0).greater(self.attrs.stars@ - exactly(10)))
            * length_bonus
    }

    /// The factor for Hidden.
    pub open spec fn hidden_factor_of(self) -> Value {
        let base = if self.attrs.is_convert {
            near(25, 1000)
        } else {
            near(1, 10)
        };
        let lazer = if !self.mods.fl && !self.is_classic {
            base * near(2, 10)
        } else {
            base
        };
        let easy = if !self.mods.fl && self.mods.ez && self.is_classic {
            lazer * near(5, 10)
        } else {
            lazer
        };
        exactly(1) + easy
    }

    /// What the difficulty of the map is worth.
    pub open spec fn compute_difficulty_value_of(
        self,
        t: Table,
        total_difficult_hits: Value,
        estimated_unstable_rate: Option<Value>,
    ) -> Value {
        match estimated_unstable_rate {
            Some(unstable_rate) => if t.same(total_difficult_hits, exactly(0)) {
                exactly(0)
            } else {
                let length_bonus = exactly(1) + near(25, 100) * total_difficult_hits
                    / (total_difficult_hits
                    + exactly(4000));
                let standard_penalty = near(97, 100) + near(3, 100) * total_difficult_hits / (
                total_difficult_hits + exactly(1500));
                let missed = self.after_misses_of(
                    self.clean_difficulty_of(t, unstable_rate, length_bonus),
                    standard_penalty,
                    self.state.hitresults.misses as nat,
                );
                let hidden = if self.mods.hd {
                    missed * self.hidden_factor_of()
                } else {
                    missed
                };
                let lit = if self.mods.fl {
                    hidden * exactly(1).greater(
                        near(105, 100)
                            - (self.attrs.mono_stamina_factor@ / exactly(50)).lesser(exactly(1))
                            * length_bonus,
                    )
                } else {
                    hidden
                };
                let exponent = exactly(2) + self.attrs.mono_stamina_factor@;
                let shift = exactly(500) - exactly(100)
                    * (self.attrs.mono_stamina_factor@ * exactly(3));
                lit * t.power(t.erf(shift / (exactly(2).root() * unstable_rate)), exponent)
            },
            None => exactly(0),
        }
    }

    /// What remains of a value after the first `n` misses.
    pub open spec fn after_misses_of(self, value: Value, standard_penalty: Value, n: nat) -> Value
        decreases n,
    {
        if n == 0 {
            value
        } else {
            let i = (n - 1) as nat;
            self.after_misses_of(value, standard_penalty, i) * self.miss_factor_of(
                i,
                standard_penalty,
            )
        }
    }

    /// What accuracy is worth.
    pub open spec fn compute_accuracy_value_of(
        self,
        t: Table,
        total_difficult_hits: Value,
        estimated_unstable_rate: Option<Value>,
    ) -> Value {
        match estimated_unstable_rate {
            Some(unstable_rate) => if self.attrs.great_hit_window@.at_most(exactly(0)) {
                exactly(0)
            } else {
                let timed = exactly(470) * t.power(near(9885, 10_000), unstable_rate);
                let hard = timed * (exactly(1) + t.power(
                    exactly(50) / unstable_rate,
                    exactly(2),
                ) * t.power(
                    self.attrs.stars@,
                    near(28, 10),
                ) / exactly(600));
                let hidden = if self.mods.hd && !self.attrs.is_convert {
                    hard * near(1075, 1000)
                } else {
                    hard
                };
                let long = hidden
                    * (exactly(1) + near(3, 10) * total_difficult_hits / (total_difficult_hits
                    + exactly(4000)));
                let memory_length_bonus = near(115, 100).lesser(
                    t.power(self.total_hits_of() / exactly(1500), near(3, 10)),
                );
                if self.mods.fl && self.mods.hd && !self.attrs.is_convert {
                    long * exactly(1).greater(near(105, 100) * memory_length_bonus)
                } else {
                    long
                }
            },
            None => exactly(0),
        }
    }

    /// The unstable rate that a score suggests, where it has Greats and the map a
    /// window for them.
    pub open spec fn unstable_rate_of(self, t: Table) -> Option<Value> {
        if self.state.hitresults.n300 == 0 || self.attrs.great_hit_window@.at_most(exactly(0)) {
            None
        } else {
            Some(
                self.compute_deviation_upper_bound_of(
                    t,
                    exactly(self.state.hitresults.n300 as nat) / self.total_hits_of(),
                ) * exactly(10),
            )
        }
    }

    /// What the score is worth: for difficulty, for accuracy and in all.
    pub open spec fn rated_of(self, t: Table) -> (Value, Value, Value) {
        let unstable_rate = self.unstable_rate_of(t);
        let difficult_hits = self.total_hits_of() * self.attrs.consistency_factor@;
        let difficulty = self.compute_difficulty_value_of(t, difficult_hits, unstable_rate) * near(
            108,
            100,
        );
        let accuracy = self.compute_accuracy_value_of(t, difficult_hits, unstable_rate) * near(
            11,
            10,
        );
        (difficulty, accuracy, difficulty + accuracy)
    }
}

impl TaikoPerformanceCalculator {
    /// The number of objects that were judged.
    pub fn total_hits(&self) -> (r: Double)
        requires
            self.state.hitresults.total() <= u32::MAX,
        ensures
            r@ == self.total_hits_of(),
    {
        whole(self.state.hitresults.total_hits() as u64)
    }

    /// The speed that a gap between notes takes, from 80 to 320; none where there is
    /// no gap.
    pub fn delta_to_effective_speed(delta_ms: Double) -> (r: Double)
        ensures
            r@ == Self::delta_to_effective_speed_of(delta_ms@),
    {
        if delta_ms.at_most(whole(0)) {
            whole(0)
        } else {
            (whole(15_000) / delta_ms).clamped(whole(80), whole(320))
        }
    }

    /// The speeds between all notes of the map; the lowest where there are not two.
    pub fn compute_all_effective_speeds(&self) -> (r: Vec<Double>)
        ensures
            values(r@) == self.compute_all_effective_speeds_of(),
            r@.len() > 0,
    {
        let times = &self.object_timestamps;
        let mut out: Vec<Double> = Vec::new();
        if times.len() < 2 {
            out.push(whole(80));
            proof {
                assert(values(out@) =~= seq![exactly(80)]);
            }
            return out;
        }
        let mut i: usize = 0;
        while i < times.len() - 1
            invariant
                times == self.object_timestamps,
                2 <= times@.len(),
                i <= times@.len() - 1,
                out@.len() == i,
                forall|k: int|
                    0 <= k < i ==> (#[trigger] out@[k])@
                        == self.compute_all_effective_speeds_of()[k],
            decreases times@.len() - i,
        {
            out.push(Self::delta_to_effective_speed(times[i + 1] - times[i]));
            i = i + 1;
        }
        proof {
            assert(values(out@) =~= self.compute_all_effective_speeds_of());
        }
        out
    }

    /// The mean of the speeds.
    pub fn estimate_average_effective_speed(&self) -> (r: Double)
        ensures
            r@ == self.estimate_average_effective_speed_of(),
    {
        average(&self.compute_all_effective_speeds())
    }

    /// The highest of the speeds.
    pub fn estimate_peak_effective_speed(&self) -> (r: Double)
        ensures
            r@ == self.estimate_peak_effective_speed_of(),
    {
        let speeds = self.compute_all_effective_speeds();
        let mut top = whole(80);
        let mut i: usize = 0;
        proof {
            assert(values(speeds@).take(0) =~= seq![]);
        }
        while i < speeds.len()
            invariant
                i <= speeds@.len(),
                top@ == highest(exactly(80), values(speeds@).take(i as int)),
            decreases speeds@.len() - i,
        {
            proof {
                assert(values(speeds@).take(i + 1).drop_last() =~= values(speeds@).take(i as int));
            }
            top = top.greater(speeds[i]);
            i = i + 1;
        }
        proof {
            assert(values(speeds@).take(i as int) =~= values(speeds@));
        }
        top
    }

    /// The lowest of the speeds.
    pub fn lowest_effective_speed(&self) -> (r: Double)
        ensures
            r@ == self.lowest_effective_speed_of(),
    {
        let speeds = self.compute_all_effective_speeds();
        let mut bottom = whole(320);
        let mut i: usize = 0;
        proof {
            assert(values(speeds@).take(0) =~= seq![]);
        }
        while i < speeds.len()
            invariant
                i <= speeds@.len(),
                bottom@ == lowest(exactly(320), values(speeds@).take(i as int)),
            decreases speeds@.len() - i,
        {
            proof {
                assert(values(speeds@).take(i + 1).drop_last() =~= values(speeds@).take(i as int));
            }
            bottom = bottom.lesser(speeds[i]);
            i = i + 1;
        }
        proof {
            assert(values(speeds@).take(i as int) =~= values(speeds@));
        }
        bottom
    }

    /// The speed of the gap whose middle is closest to a time.
    pub fn closest_speed(&self, time: Double) -> (r: Double)
        requires
            self.object_timestamps@.len() >= 2,
        ensures
            r@ == self.closest_speed_of(time@),
    {
        let times = &self.object_timestamps;
        let mut closest_speed = whole(80);
        let mut min_diff = Double { bits: 0x7fef_ffff_ffff_ffff };
        let mut i: usize = 0;
        while i < times.len() - 1
            invariant
                times == self.object_timestamps,
                2 <= times@.len(),
                i <= times@.len() - 1,
                (closest_speed@, min_diff@) == closest(values(times@), time@, i as nat),
            decreases times@.len() - i,
        {
            let mid_point = (times[i] + times[i + 1]) / whole(2);
            let diff = (time - mid_point).absolute();
            if diff.below(min_diff) {
                min_diff = diff;
                closest_speed = Self::delta_to_effective_speed(times[i + 1] - times[i]);
            }
            i = i + 1;
        }
        closest_speed
    }

    /// Whether a miss was in a slow section: near the lowest speed of the map, or far
    /// below its mean.
    pub fn is_miss_on_slow_section(&self, miss_time: Double) -> (r: bool)
        ensures
            r == self.is_miss_on_slow_section_of(miss_time@),
    {
        if self.object_timestamps.len() < 2 {
            false
        } else {
            let speed = self.closest_speed(miss_time);
            speed.at_most(self.lowest_effective_speed() * ratio(115, 100)) || speed.below(
                self.estimate_average_effective_speed() * ratio(7, 10),
            )
        }
    }

    /// The deviation that hits of an accuracy have at most, with a confidence of 99%.
    pub fn compute_deviation_upper_bound<F: Fn(Query<Double>) -> Double>(
        &self,
        math: &Math<F>,
        accuracy: Double,
    ) -> (r: Double)
        requires
            math.sound(),
            self.state.hitresults.total() <= u32::MAX,
        ensures
            r@ == self.compute_deviation_upper_bound_of(math@, accuracy@),
    {
        let z = ratio(232_634_787_404, 100_000_000_000);
        let n = self.total_hits();
        let p = accuracy;
        let p_lower_bound = (n * p + z * z / whole(2)) / (n + z * z) - z / (n + z * z)
            * (n * p * (whole(
            1,
        ) - p) + z * z / whole(4)).root();
        self.attrs.great_hit_window / (whole(2).root() * math.erf_inv(p_lower_bound))
    }

    /// What remains of a value after miss number `i`: nearly all of it where an
    /// accurate play with few misses slips in a slow section.
    pub fn miss_factor(&self, i: usize, standard_penalty: Double) -> (r: Double)
        requires
            self.state.hitresults.total() <= u32::MAX,
        ensures
            r@ == self.miss_factor_of(i as nat, standard_penalty@),
    {
        let accuracy = whole(self.state.hitresults.n300 as u64) / self.total_hits();
        if i < self.miss_timestamps.len() && ratio(94, 100).at_most(accuracy)
            && self.is_miss_on_slow_section(self.miss_timestamps[i])
            && self.state.hitresults.misses <= 3 {
            ratio(9995, 10_000)
        } else {
            standard_penalty
        }
    }

    /// The part of the base difficulty that rhythm leaves.
    pub fn rhythm_penalty<F: Fn(Query<Double>) -> Double>(
        &self,
        math: &Math<F>,
        unstable_rate: Double,
    ) -> (r: Double)
        requires
            math.sound(),
            self.state.hitresults.total() <= u32::MAX,
        ensures
            r@ == self.rhythm_penalty_of(math@, unstable_rate@),
    {
        let expected = self.compute_deviation_upper_bound(math, whole(1)) * whole(10);
        let maximum = self.compute_deviation_upper_bound(math, ratio(8, 10)) * whole(10);
        let rhythm_factor = math.reverse_lerp(
            self.attrs.rhythm / self.attrs.stars,
            ratio(15, 100),
            ratio(4, 10),
        );
        whole(1) - math.logistic(
            unstable_rate,
            (expected + maximum) / whole(2),
            whole(10) / (maximum - expected),
            Some(ratio(25, 100) * math.power(rhythm_factor, whole(3))),
        )
    }

    /// What the difficulty of the map is worth before misses.
    pub fn clean_difficulty<F: Fn(Query<Double>) -> Double>(
        &self,
        math: &Math<F>,
        unstable_rate: Double,
        length_bonus: Double,
    ) -> (r: Double)
        requires
            math.sound(),
            self.state.hitresults.total() <= u32::MAX,
        ensures
            r@ == self.clean_difficulty_of(math@, unstable_rate@, length_bonus@),
    {
        let base = whole(5) * whole(1).greater(
            self.attrs.stars * self.rhythm_penalty(math, unstable_rate) / ratio(11, 100),
        ) - whole(4);
        let raw = (math.power(base, whole(3)) / ratio(6_905_251, 100)).lesser(
            math.power(base, ratio(225, 100)) / whole(1250),
        );
        raw * (whole(1) + ratio(10, 100) * whole(0).greater(self.attrs.stars - whole(10)))
            * length_bonus
    }

    /// The factor for Hidden.
    pub fn hidden_factor(&self) -> (r: Double)
        ensures
            r@ == self.hidden_factor_of(),
    {
        let base = if self.attrs.is_convert {
            ratio(25, 1000)
        } else {
            ratio(1, 10)
        };
        let lazer = if !self.mods.fl && !self.is_classic {
            base * ratio(2, 10)
        } else {
            base
        };
        let easy = if !self.mods.fl && self.mods.ez && self.is_classic {
            lazer * ratio(5, 10)
        } else {
            lazer
        };
        whole(1) + easy
    }

    /// What the difficulty of the map is worth.
    pub fn compute_difficulty_value<F: Fn(Query<Double>) -> Double>(
        &self,
        math: &Math<F>,
        total_difficult_hits: Double,
        estimated_unstable_rate: Option<Double>,
    ) -> (r: Double)
        requires
            math.sound(),
            self.state.hitresults.total() <= u32::MAX,
        ensures
            r@ == self.compute_difficulty_value_of(
                math@,
                total_difficult_hits@,
                optional(estimated_unstable_rate),
            ),
    {
        match estimated_unstable_rate {
            Some(unstable_rate) => if math.same(total_difficult_hits, whole(0)) {
                whole(0)
            } else {
                let length_bonus = whole(1) + ratio(25, 100) * total_difficult_hits
                    / (total_difficult_hits
                    + whole(4000));
                let standard_penalty = ratio(97, 100) + ratio(3, 100) * total_difficult_hits / (
                total_difficult_hits + whole(1500));
                let missed = self.after_misses(
                    self.clean_difficulty(math, unstable_rate, length_bonus),
                    standard_penalty,
                    self.state.hitresults.misses,
                );
                let hidden = if self.mods.hd {
                    missed * self.hidden_factor()
                } else {
                    missed
                };
                let lit = if self.mods.fl {
                    hidden * whole(1).greater(
                        ratio(105, 100)
                            - (self.attrs.mono_stamina_factor / whole(50)).lesser(whole(1))
                            * length_bonus,
                    )
                } else {
                    hidden
                };
                let exponent = whole(2) + self.attrs.mono_stamina_factor;
                let shift = whole(500) - whole(100) * (self.attrs.mono_stamina_factor * whole(3));
                lit * math.power(math.erf(shift / (whole(2).root() * unstable_rate)), exponent)
            },
            None => whole(0),
        }
    }

    /// What remains of a value after misses.
    pub fn after_misses(&self, value: Double, standard_penalty: Double, misses: u32) -> (r: Double)
        requires
            self.state.hitresults.total() <= u32::MAX,
        ensures
            r@ == self.after_misses_of(value@, standard_penalty@, misses as nat),
    {
        let mut out = value;
        let mut i: u32 = 0;
        while i < misses
            invariant
                i <= misses,
                self.state.hitresults.total() <= u32::MAX,
                out@ == self.after_misses_of(value@, standard_penalty@, i as nat),
            decreases misses - i,
        {
            out = out * self.miss_factor(i as usize, standard_penalty);
            i = i + 1;
        }
        out
    }

    /// What accuracy is worth.
    pub fn compute_accuracy_value<F: Fn(Query<Double>) -> Double>(
        &self,
        math: &Math<F>,
        total_difficult_hits: Double,
        estimated_unstable_rate: Option<Double>,
    ) -> (r: Double)
        requires
            math.sound(),
            self.state.hitresults.total() <= u32::MAX,
        ensures
            r@ == self.compute_accuracy_value_of(
                math@,
                total_difficult_hits@,
                optional(estimated_unstable_rate),
            ),
    {
        match estimated_unstable_rate {
            Some(unstable_rate) => if self.attrs.great_hit_window.at_most(whole(0)) {
                whole(0)
            } else {
                let timed = whole(470) * math.power(ratio(9885, 10_000), unstable_rate);
                let hard = timed
                    * (whole(1) + math.power(whole(50) / unstable_rate, whole(2)) * math.power(
                    self.attrs.stars,
                    ratio(28, 10),
                ) / whole(600));
                let hidden = if self.mods.hd && !self.attrs.is_convert {
                    hard * ratio(1075, 1000)
                } else {
                    hard
                };
                let long = hidden
                    * (whole(1) + ratio(3, 10) * total_difficult_hits / (total_difficult_hits
                    + whole(4000)));
                let memory_length_bonus = ratio(115, 100).lesser(
                    math.power(self.total_hits() / whole(1500), ratio(3, 10)),
                );
                if self.mods.fl && self.mods.hd && !self.attrs.is_convert {
                    long * whole(1).greater(ratio(105, 100) * memory_length_bonus)
                } else {
                    long
                }
            },
            None => whole(0),
        }
    }

    /// The unstable rate that a score suggests, where it has Greats and the map a
    /// window for them.
    pub fn unstable_rate<F: Fn(Query<Double>) -> Double>(
        &self,
        math: &Math<F>,
    ) -> (r: Option<Double>)
        requires
            math.sound(),
            self.state.hitresults.total() <= u32::MAX,
        ensures
            optional(r) == self.unstable_rate_of(math@),
    {
        if self.state.hitresults.n300 == 0 || self.attrs.great_hit_window.at_most(whole(0)) {
            None
        } else {
            Some(
                self.compute_deviation_upper_bound(
                    math,
                    whole(self.state.hitresults.n300 as u64) / self.total_hits(),
                ) * whole(10),
            )
        }
    }

    /// A score on a map, without times.
    pub fn new(
        attrs: TaikoDifficultyAttributes,
        mods: GameMods,
        state: TaikoScoreState,
        is_classic: bool,
    ) -> (r: Self)
        ensures
            r.attrs == attrs,
            r.mods == mods,
            r.state == state,
            r.is_classic == is_classic,
            r.object_timestamps@ == Seq::<Double>::empty(),
            r.miss_timestamps@ == Seq::<Double>::empty(),
    {
        TaikoPerformanceCalculator {
            attrs,
            mods,
            state,
            is_classic,
            object_timestamps: Vec::new(),
            miss_timestamps: Vec::new(),
        }
    }

    /// The same with the times of notes and misses, in milliseconds.
    pub fn with_timestamps(
        self,
        object_timestamps: Vec<Double>,
        miss_timestamps: Vec<Double>,
    ) -> (r: Self)
        ensures
            r == (TaikoPerformanceCalculator { object_timestamps, miss_timestamps, ..self }),
    {
        TaikoPerformanceCalculator {
            attrs: self.attrs,
            mods: self.mods,
            state: self.state,
            is_classic: self.is_classic,
            object_timestamps,
            miss_timestamps,
        }
    }

    /// What the score is worth.
    pub fn calculate<F: Fn(Query<Double>) -> Double>(self, math: &Math<F>) -> (r:
        TaikoPerformanceAttributes)
        requires
            math.sound(),
            self.state.hitresults.total() <= u32::MAX,
        ensures
            r.difficulty == self.attrs,
            (r.pp_difficulty@, r.pp_acc@, r.pp@) == self.rated_of(math@),
            optional(r.estimated_unstable_rate) == self.unstable_rate_of(math@),
    {
        let unstable_rate = self.unstable_rate(math);
        let difficult_hits = self.total_hits() * self.attrs.consistency_factor;
        let difficulty = self.compute_difficulty_value(math, difficult_hits, unstable_rate) * ratio(
            108,
            100,
        );
        let accuracy = self.compute_accuracy_value(math, difficult_hits, unstable_rate) * ratio(
            11,
            10,
        );
        TaikoPerformanceAttributes {
            difficulty: self.attrs,
            pp: difficulty + accuracy,
            pp_acc: accuracy,
            pp_difficulty: difficulty,
            estimated_unstable_rate: unstable_rate,
        }
    }
}

/// The speed of a gap between notes that is a number is none, or from 80 to 320.
pub proof fn law_speeds_are_bounded(delta_ms: Value)
    requires
        number(delta_ms),
    ensures
        ({
            let speed = TaikoPerformanceCalculator::delta_to_effective_speed_of(delta_ms);
            speed == exactly(0) || (exactly(80).at_most(speed) && speed.at_most(exactly(320)))
        }),
{
    lemma_one();
    lemma_whole_place(80);
    lemma_whole_place(320);
    lemma_whole_place(15_000);
    lemma_order(delta_ms, exactly(0));
    if !delta_ms.at_most(exactly(0)) {
        let speed = exactly(15_000) / delta_ms;
        lemma_proper(exactly(15_000), delta_ms);
        assert(!(speed is Nan)) by {
            reveal(Value::over);
        }
        lemma_held(speed, exactly(80), exactly(320));
    }
}

/// Misses only cost: each leaves a share of the value before it.
pub proof fn law_misses_only_cost(
    calculator: TaikoPerformanceCalculator,
    value: Value,
    penalty: Value,
    n: nat,
)
    requires
        finite(value),
        exactly(0).at_most(value),
        finite(penalty),
        exactly(0).at_most(penalty) && penalty.at_most(exactly(1)),
    ensures
        exactly(0).at_most(calculator.after_misses_of(value, penalty, n + 1)),
        calculator.after_misses_of(value, penalty, n + 1).at_most(
            calculator.after_misses_of(value, penalty, n),
        ),
        calculator.after_misses_of(value, penalty, n).at_most(value),
{
    lemma_one();
    lemma_order(exactly(0), value);
    lemma_order(exactly(0), penalty);
    lemma_order(penalty, exactly(1));
    lemma_after_misses(calculator, value, penalty, n);
    lemma_after_misses(calculator, value, penalty, n + 1);
    let (before, after) = (
        calculator.after_misses_of(value, penalty, n),
        calculator.after_misses_of(value, penalty, n + 1),
    );
    lemma_near_place(9995, 10_000);
    lemma_near_places(9995, 10_000, 1, 1);
    lemma_times_share(before, calculator.miss_factor_of(n, penalty));
    lemma_order(exactly(0), after);
    lemma_order(after, before);
    lemma_order(before, value);
}

/// Where a value stands after misses.
pub proof fn lemma_after_misses(
    calculator: TaikoPerformanceCalculator,
    value: Value,
    penalty: Value,
    n: nat,
)
    requires
        finite(value),
        place(value) >= 0,
        finite(penalty),
        0 <= place(penalty) <= one_units(),
    ensures
        finite(calculator.after_misses_of(value, penalty, n)),
        0 <= place(calculator.after_misses_of(value, penalty, n)) <= place(value),
    decreases n,
{
    if n > 0 {
        let i = (n - 1) as nat;
        lemma_after_misses(calculator, value, penalty, i);
        lemma_one();
        lemma_near_place(9995, 10_000);
        lemma_near_places(9995, 10_000, 1, 1);
        lemma_times_share(
            calculator.after_misses_of(value, penalty, i),
            calculator.miss_factor_of(i, penalty),
        );
    }
}

/// A score without a Great is worth nothing.
pub proof fn law_no_greats_are_worth_nothing(
    calculator: TaikoPerformanceCalculator,
    t: Table,
    difficult_hits: Value,
)
    requires
        calculator.state.hitresults.n300 == 0,
    ensures
        calculator.unstable_rate_of(t) is None,
        calculator.compute_difficulty_value_of(t, difficult_hits, calculator.unstable_rate_of(t))
            == exactly(0),
        calculator.compute_accuracy_value_of(t, difficult_hits, calculator.unstable_rate_of(t))
            == exactly(0),
{
}

} // verus!
