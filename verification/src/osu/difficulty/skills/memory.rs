//! How much of a map has to be memorized.
use vstd::arithmetic::power2::{lemma2_to64_rest, lemma_pow2_adds, lemma_pow2_unfold, pow2};
use vstd::prelude::*;

use crate::double::Double;
use crate::operators::{ratio, whole};
use crate::order::{
    finite, lemma_clamped, lemma_greater, lemma_inside, lemma_left_of_one, lemma_minus,
    lemma_near_place, lemma_near_places, lemma_near_units, lemma_one, lemma_order, lemma_over,
    lemma_over_order, lemma_plus, lemma_proper, lemma_settle_fits, lemma_settle_order,
    lemma_share_times, lemma_times, lemma_times_one, lemma_times_order, lemma_times_share,
    lemma_whole_place, number, place, proper,
};
use crate::osu::difficulty::object::OsuDifficultyObject;
use crate::powers::rises;
use crate::query::{optional, Math, Query, Table};
use crate::signs::{
    lemma_add_from, lemma_held_up_to, lemma_multiply, lemma_multiply_from, not_negative,
};
use crate::value::{exactly, near, one_units, Value};

verus! {

/// The factor for Hidden.
pub open spec fn hidden_multiplier_of(hidden: bool) -> Value {
    if hidden {
        near(165, 100)
    } else {
        exactly(1)
    }
}

/// The performance that a difficulty of memory is worth.
pub open spec fn difficulty_to_performance_of(t: Table, difficulty: Value) -> Value {
    exactly(25) * t.power(difficulty, exactly(2))
}

/// The performance of a play: less with lower accuracy, a shorter combo or misses.
pub open spec fn performance_value_of(
    t: Table,
    difficulty: Value,
    accuracy: Value,
    combo: Value,
    max_combo: Value,
    misses: Value,
    total_hits: Value,
) -> Value {
    let base = difficulty_to_performance_of(t, difficulty);
    let accuracy_factor = t.power(
        near(4, 10) + near(6, 10) * accuracy.clamped(exactly(0), exactly(1)),
        near(15, 10),
    );
    let combo_factor = t.power(
        near(5, 10) + near(5, 10) * (combo / max_combo.greater(exactly(1))).clamped(
            exactly(0),
            exactly(1),
        ),
        near(8, 10),
    );
    let miss_factor = if exactly(0).below(misses) {
        near(97, 100) * t.power(
            exactly(1) - (misses / total_hits.greater(exactly(1))).clamped(exactly(0), exactly(1)),
            near(8, 10),
        )
    } else {
        exactly(1)
    };
    base * accuracy_factor * combo_factor * miss_factor
}

/// How much a step changes rhythm and place.
pub open spec fn step_complexity_of(
    t: Table,
    delta_time: Value,
    previous_delta_time: Value,
    movement: Value,
) -> Value {
    let rhythm_change = t.ln(
        delta_time.greater(exactly(1)) / previous_delta_time.greater(exactly(1)),
    ).absolute().clamped(exactly(0), exactly(2)) / exactly(2);
    let spatial_change = (movement / (movement + exactly(80))).clamped(exactly(0), exactly(1));
    near(6, 10) * rhythm_change + near(4, 10) * spatial_change
}

/// How much a step changes rhythm and place.
fn step_complexity<F: Fn(Query<Double>) -> Double>(
    math: &Math<F>,
    delta_time: Double,
    previous_delta_time: Double,
    movement: Double,
) -> (r: Double)
    requires
        math.sound(),
    ensures
        r@ == step_complexity_of(math@, delta_time@, previous_delta_time@, movement@),
{
    let rhythm_change = math.ln(
        delta_time.greater(whole(1)) / previous_delta_time.greater(whole(1)),
    ).absolute().clamped(whole(0), whole(2)) / whole(2);
    let spatial_change = (movement / (movement + whole(80))).clamped(whole(0), whole(1));
    ratio(6, 10) * rhythm_change + ratio(4, 10) * spatial_change
}

/// What is remembered of a map, object by object.
pub struct MemoryState {
    pub object_count: nat,
    pub hidden: bool,
    pub pattern_complexity: Value,
    pub previous_delta_time: Option<Value>,
    pub previous_position: Option<(Value, Value)>,
}

impl MemoryState {
    /// The same after an object.
    pub open spec fn processed(self, t: Table, curr: OsuDifficultyObject) -> MemoryState {
        MemoryState {
            object_count: self.object_count + 1,
            hidden: self.hidden,
            pattern_complexity: match (self.previous_delta_time, self.previous_position) {
                (Some(delta_time), Some(position)) => self.pattern_complexity + step_complexity_of(
                    t,
                    curr.delta_time@,
                    delta_time,
                    t.distance(position.0, position.1, curr.pos_x@, curr.pos_y@),
                ),
                _ => self.pattern_complexity,
            },
            previous_delta_time: Some(curr.delta_time@),
            previous_position: Some((curr.pos_x@, curr.pos_y@)),
        }
    }

    /// The difficulty: none on fewer than a hundred objects, growing with their
    /// number up to two thousand.
    pub open spec fn difficulty(self, t: Table) -> Value {
        if self.object_count < 100 {
            exactly(0)
        } else {
            let length = ((exactly(self.object_count) - exactly(100)) / exactly(1900)).clamped(
                exactly(0),
                exactly(1),
            );
            let pattern_multiplier = exactly(1) + near(35, 100) * (self.pattern_complexity
                / exactly((self.object_count - 1) as nat)).clamped(exactly(0), exactly(1));
            t.power(length, near(135, 100)) * hidden_multiplier_of(self.hidden) * pattern_multiplier
        }
    }
}

/// Estimates the extra burden of memorization that Flashlight creates.
#[derive(Clone, Copy, Debug)]
pub struct Memory {
    pub object_count: usize,
    pub hidden: bool,
    pub pattern_complexity: Double,
    pub previous_delta_time: Option<Double>,
    pub previous_position: Option<(Double, Double)>,
}

impl View for Memory {
    type V = MemoryState;

    open spec fn view(&self) -> MemoryState {
        MemoryState {
            object_count: self.object_count as nat,
            hidden: self.hidden,
            pattern_complexity: self.pattern_complexity@,
            previous_delta_time: optional(self.previous_delta_time),
            previous_position: match self.previous_position {
                Some(position) => Some((position.0@, position.1@)),
                None => None,
            },
        }
    }
}

impl Default for Memory {
    fn default() -> (r: Self)
        ensures
            r@ == (MemoryState {
                object_count: 0,
                hidden: false,
                pattern_complexity: exactly(0),
                previous_delta_time: None,
                previous_position: None,
            }),
    {
        Memory::new(false)
    }
}

impl Memory {
    /// The memory of no objects.
    pub fn new(hidden: bool) -> (r: Self)
        ensures
            r@ == (MemoryState {
                object_count: 0,
                hidden,
                pattern_complexity: exactly(0),
                previous_delta_time: None,
                previous_position: None,
            }),
    {
        Memory {
            object_count: 0,
            hidden,
            pattern_complexity: whole(0),
            previous_delta_time: None,
            previous_position: None,
        }
    }

    /// Takes up an object.
    pub fn process<F: Fn(Query<Double>) -> Double>(
        &mut self,
        math: &Math<F>,
        curr: &OsuDifficultyObject,
        _objects: &[OsuDifficultyObject],
    )
        requires
            math.sound(),
            old(self).object_count < usize::MAX,
        ensures
            final(self)@ == old(self)@.processed(math@, *curr),
    {
        match (self.previous_delta_time, self.previous_position) {
            (Some(delta_time), Some(position)) => {
                let movement = math.distance(position.0, position.1, curr.pos_x, curr.pos_y);
                self.pattern_complexity = self.pattern_complexity + step_complexity(
                    math,
                    curr.delta_time,
                    delta_time,
                    movement,
                );
            },
            _ => {},
        }
        self.previous_delta_time = Some(curr.delta_time);
        self.previous_position = Some((curr.pos_x, curr.pos_y));
        self.object_count = self.object_count + 1;
    }

    /// The difficulty: none on fewer than a hundred objects, growing with their
    /// number up to two thousand.
    pub fn difficulty<F: Fn(Query<Double>) -> Double>(self, math: &Math<F>) -> (r: Double)
        requires
            math.sound(),
        ensures
            r@ == self@.difficulty(math@),
    {
        if self.object_count < 100 {
            return whole(0);
        }
        let length = ((whole(self.object_count as u64) - whole(100)) / whole(1900)).clamped(
            whole(0),
            whole(1),
        );
        let pattern_multiplier = whole(1) + ratio(35, 100) * (self.pattern_complexity / whole(
            (self.object_count - 1) as u64,
        )).clamped(whole(0), whole(1));
        math.power(length, ratio(135, 100)) * Self::hidden_multiplier(self.hidden)
            * pattern_multiplier
    }

    /// The factor for Hidden.
    pub fn hidden_multiplier(hidden: bool) -> (r: Double)
        ensures
            r@ == hidden_multiplier_of(hidden),
    {
        if hidden {
            ratio(165, 100)
        } else {
            whole(1)
        }
    }

    /// The performance that a difficulty of memory is worth.
    pub fn difficulty_to_performance<F: Fn(Query<Double>) -> Double>(
        math: &Math<F>,
        difficulty: Double,
    ) -> (r: Double)
        requires
            math.sound(),
        ensures
            r@ == difficulty_to_performance_of(math@, difficulty@),
    {
        whole(25) * math.power(difficulty, whole(2))
    }

    /// The performance of a play: less with lower accuracy, a shorter combo or misses.
    pub fn performance_value<F: Fn(Query<Double>) -> Double>(
        math: &Math<F>,
        difficulty: Double,
        accuracy: Double,
        combo: Double,
        max_combo: Double,
        misses: Double,
        total_hits: Double,
    ) -> (r: Double)
        requires
            math.sound(),
        ensures
            r@ == performance_value_of(
                math@,
                difficulty@,
                accuracy@,
                combo@,
                max_combo@,
                misses@,
                total_hits@,
            ),
    {
        let base = Self::difficulty_to_performance(math, difficulty);
        let accuracy_factor = math.power(
            ratio(4, 10) + ratio(6, 10) * accuracy.clamped(whole(0), whole(1)),
            ratio(15, 10),
        );
        let combo_factor = math.power(
            ratio(5, 10) + ratio(5, 10) * (combo / max_combo.greater(whole(1))).clamped(
                whole(0),
                whole(1),
            ),
            ratio(8, 10),
        );
        let miss_factor = if whole(0).below(misses) {
            ratio(97, 100) * math.power(
                whole(1) - (misses / total_hits.greater(whole(1))).clamped(whole(0), whole(1)),
                ratio(8, 10),
            )
        } else {
            whole(1)
        };
        base * accuracy_factor * combo_factor * miss_factor
    }
}

/// On a map of fewer than a hundred objects nothing has to be memorized.
pub proof fn law_short_maps_need_no_memory(t: Table, state: MemoryState)
    requires
        state.object_count < 100,
    ensures
        state.difficulty(t) == exactly(0),
{
}

/// How much of a map is past the first hundred objects, up to two thousand.
pub open spec fn length_share_of(state: MemoryState) -> Value {
    ((exactly(state.object_count) - exactly(100)) / exactly(1900)).clamped(
        exactly(0),
        exactly(1),
    )
}

/// Hidden makes a map no easier to memorize.
pub proof fn law_hidden_asks_for_more(t: Table, state: MemoryState)
    requires
        rises(t, near(135, 100), length_share_of(state), length_share_of(state)),
        number(state.pattern_complexity),
        state.object_count <= 0x20_0000_0000_0000,
    ensures
        ({
            let visible = MemoryState { hidden: false, ..state };
            let hidden = MemoryState { hidden: true, ..state };
            visible.difficulty(t).at_most(hidden.difficulty(t))
        }),
{
    lemma_one();
    lemma_order(exactly(0), exactly(0));
    if state.object_count >= 100 {
        let n = state.object_count;
        lemma_whole_place(n);
        lemma_whole_place((n - 1) as nat);
        lemma_whole_place(100);
        lemma_whole_place(1900);
        lemma_whole_place(2);
        lemma_minus(exactly(n), exactly(100));
        lemma_over(exactly(n) - exactly(100), exactly(1900));
        let length = ((exactly(n) - exactly(100)) / exactly(1900)).clamped(exactly(0), exactly(1));
        lemma_clamped((exactly(n) - exactly(100)) / exactly(1900), exactly(0), exactly(1));
        lemma_order(exactly(0), length);
        lemma_order(length, exactly(1));
        let power = t.power(length, near(135, 100));
        let u = one_units();
        assert((n - 1) * u > 0) by (nonlinear_arith)
            requires
                n > 1,
                u > 0,
        ;
        let complexity = state.pattern_complexity / exactly((n - 1) as nat);
        lemma_over(state.pattern_complexity, exactly((n - 1) as nat));
        lemma_clamped(complexity, exactly(0), exactly(1));
        let share = complexity.clamped(exactly(0), exactly(1));
        lemma_near_place(35, 100);
        lemma_near_places(35, 100, 1, 1);
        lemma_times_share(near(35, 100), share);
        let part = near(35, 100) * share;
        lemma_plus(exactly(1), part);
        lemma_settle_fits(exactly(0));
        lemma_settle_fits(exactly(2));
        lemma_settle_order(0, 1, u + place(part), 1);
        lemma_settle_order(u + place(part), 1, 2 * u as int, 1);
        lemma_inside(exactly(2));
        lemma_inside(exactly(1) + part);
        lemma_near_place(165, 100);
        lemma_near_places(1, 1, 165, 100);
        lemma_share_times(power, near(165, 100));
        lemma_share_times(power, exactly(1));
        lemma_times_order(power, exactly(1), power, near(165, 100));
        lemma_times_order(
            power * exactly(1),
            exactly(1) + part,
            power * near(165, 100),
            exactly(1) + part,
        );
        lemma_times(power * exactly(1), exactly(1) + part);
        lemma_times(power * near(165, 100), exactly(1) + part);
        lemma_order(
            power * exactly(1) * (exactly(1) + part),
            power * near(165, 100) * (exactly(1) + part),
        );
    }
}

/// A half and a half, and four tenths and six tenths, make one.
proof fn lemma_parts()
    ensures
        finite(near(4, 10)),
        finite(near(6, 10)),
        finite(near(5, 10)),
        0 <= place(near(4, 10)),
        0 <= place(near(6, 10)) <= one_units(),
        0 <= place(near(5, 10)) <= one_units(),
        place(near(4, 10)) + place(near(6, 10)) == one_units(),
        place(near(5, 10)) + place(near(5, 10)) == one_units(),
{
    lemma2_to64_rest();
    lemma_one();
    lemma_near_place(4, 10);
    lemma_near_place(6, 10);
    lemma_near_place(5, 10);
    lemma_near_places(6, 10, 1, 1);
    lemma_near_places(5, 10, 1, 1);
    lemma_near_units(4, 10, 54, 7_205_759_403_792_794);
    lemma_near_units(6, 10, 53, 5_404_319_552_844_595);
    lemma_near_units(5, 10, 53, 0x10_0000_0000_0000);
    let c = pow2(1020);
    lemma_pow2_unfold(1021);
    lemma_pow2_adds(54, 1020);
    assert(7_205_759_403_792_794 * c + 5_404_319_552_844_595 * (2 * c) == 0x40_0000_0000_0000 * c)
        by (nonlinear_arith);
    assert(0x10_0000_0000_0000 * (2 * c) + 0x10_0000_0000_0000 * (2 * c) == 0x40_0000_0000_0000
        * c) by (nonlinear_arith);
}

/// A part and a share of what is left of one is a share, the larger the share is.
proof fn lemma_blend(base: Value, rest: Value, x: Value, y: Value)
    requires
        finite(base),
        finite(rest),
        finite(x),
        finite(y),
        0 <= place(base),
        0 <= place(rest) <= one_units(),
        place(base) + place(rest) == one_units(),
        0 <= place(x) <= place(y) <= one_units(),
    ensures
        finite(base + rest * x),
        finite(base + rest * y),
        0 <= place(base + rest * x) <= place(base + rest * y) <= one_units(),
{
    lemma_one();
    lemma_settle_fits(exactly(0));
    lemma_settle_fits(exactly(1));
    lemma_times_share(rest, x);
    lemma_times_share(rest, y);
    lemma_times_order(rest, x, rest, y);
    lemma_plus(base, rest * x);
    lemma_plus(base, rest * y);
    lemma_settle_order(0, 1, place(base) + place(rest * x), 1);
    lemma_settle_order(
        place(base) + place(rest * x),
        1,
        place(base) + place(rest * y),
        1,
    );
    lemma_settle_order(place(base) + place(rest * y), 1, one_units() as int, 1);
    lemma_inside(exactly(1));
    lemma_inside(base + rest * x);
    lemma_inside(base + rest * y);
}

/// What counts of the accuracy of a play.
pub open spec fn accuracy_share_of(accuracy: Value) -> Value {
    near(4, 10) + near(6, 10) * accuracy.clamped(exactly(0), exactly(1))
}

/// What counts of the combo of a play.
pub open spec fn combo_share_of(combo: Value, max_combo: Value) -> Value {
    near(5, 10) + near(5, 10) * (combo / max_combo.greater(exactly(1))).clamped(
        exactly(0),
        exactly(1),
    )
}

/// The share of the objects that were not missed.
pub open spec fn hit_share_of(misses: Value, total_hits: Value) -> Value {
    exactly(1) - (misses / total_hits.greater(exactly(1))).clamped(exactly(0), exactly(1))
}

/// A play with a better accuracy and a longer combo is worth no less, and one with
/// misses no more than without. None is worth less than nothing.
pub proof fn law_memory_rewards_play(
    t: Table,
    difficulty: Value,
    worse: Value,
    better: Value,
    shorter: u32,
    longer: u32,
    max_combo: u32,
    misses: Value,
    total_hits: u32,
)
    requires
        rises(t, near(15, 10), accuracy_share_of(worse), accuracy_share_of(better)),
        rises(
            t,
            near(8, 10),
            combo_share_of(exactly(shorter as nat), exactly(max_combo as nat)),
            combo_share_of(exactly(longer as nat), exactly(max_combo as nat)),
        ),
        exactly(0).below(misses) ==> rises(
            t,
            near(8, 10),
            hit_share_of(misses, exactly(total_hits as nat)),
            hit_share_of(misses, exactly(total_hits as nat)),
        ),
        finite(difficulty_to_performance_of(t, difficulty)),
        place(difficulty_to_performance_of(t, difficulty)) >= 0,
        number(worse),
        number(better),
        worse.at_most(better),
        shorter <= longer,
        number(misses),
    ensures
        exactly(0).at_most(
            performance_value_of(
                t,
                difficulty,
                worse,
                exactly(shorter as nat),
                exactly(max_combo as nat),
                misses,
                exactly(total_hits as nat),
            ),
        ),
        performance_value_of(
            t,
            difficulty,
            worse,
            exactly(shorter as nat),
            exactly(max_combo as nat),
            misses,
            exactly(total_hits as nat),
        ).at_most(
            performance_value_of(
                t,
                difficulty,
                better,
                exactly(longer as nat),
                exactly(max_combo as nat),
                exactly(0),
                exactly(total_hits as nat),
            ),
        ),
{
    lemma_one();
    lemma_parts();
    let u = one_units();
    let base = difficulty_to_performance_of(t, difficulty);
    lemma_order(worse, better);
    lemma_clamped(worse, exactly(0), exactly(1));
    lemma_clamped(better, exactly(0), exactly(1));
    let (a, b) = (worse.clamped(exactly(0), exactly(1)), better.clamped(exactly(0), exactly(1)));
    lemma_blend(near(4, 10), near(6, 10), a, b);
    let (c, d) = (near(4, 10) + near(6, 10) * a, near(4, 10) + near(6, 10) * b);
    let (accuracy, best) = (t.power(c, near(15, 10)), t.power(d, near(15, 10)));
    lemma_whole_place(shorter as nat);
    lemma_whole_place(longer as nat);
    lemma_whole_place(max_combo as nat);
    lemma_whole_place(total_hits as nat);
    lemma_greater(exactly(max_combo as nat), exactly(1));
    lemma_greater(exactly(total_hits as nat), exactly(1));
    let full = exactly(max_combo as nat).greater(exactly(1));
    let hits = exactly(total_hits as nat).greater(exactly(1));
    lemma_inside(exactly(max_combo as nat));
    lemma_inside(exactly(total_hits as nat));
    lemma_inside(exactly(1));
    lemma_inside(full);
    lemma_inside(hits);
    let (e, f) = (exactly(shorter as nat), exactly(longer as nat));
    assert(shorter * u <= longer * u) by (nonlinear_arith)
        requires
            shorter <= longer,
    ;
    lemma_over(e, full);
    lemma_over(f, full);
    lemma_over_order(e, f, full);
    lemma_clamped(e / full, exactly(0), exactly(1));
    lemma_clamped(f / full, exactly(0), exactly(1));
    let (g, h) = (
        (e / full).clamped(exactly(0), exactly(1)),
        (f / full).clamped(exactly(0), exactly(1)),
    );
    lemma_blend(near(5, 10), near(5, 10), g, h);
    let (i, j) = (near(5, 10) + near(5, 10) * g, near(5, 10) + near(5, 10) * h);
    let (combo, most) = (t.power(i, near(8, 10)), t.power(j, near(8, 10)));
    lemma_over(misses, hits);
    lemma_clamped(misses / hits, exactly(0), exactly(1));
    let missed = (misses / hits).clamped(exactly(0), exactly(1));
    lemma_left_of_one(missed);
    let left = exactly(1) - missed;
    lemma_near_place(97, 100);
    lemma_near_places(97, 100, 1, 1);
    if exactly(0).below(misses) {
        lemma_times_share(near(97, 100), t.power(left, near(8, 10)));
    }
    let factor = if exactly(0).below(misses) {
        near(97, 100) * t.power(left, near(8, 10))
    } else {
        exactly(1)
    };
    lemma_order(exactly(0), exactly(0));
    lemma_times_share(base, accuracy);
    lemma_times_share(base, best);
    lemma_times_order(base, accuracy, base, best);
    lemma_times_share(base * accuracy, combo);
    lemma_times_share(base * best, most);
    lemma_times_order(base * accuracy, combo, base * best, most);
    lemma_times_share(base * accuracy * combo, factor);
    lemma_times_share(base * best * most, exactly(1));
    lemma_times_order(base * accuracy * combo, factor, base * best * most, exactly(1));
    lemma_order(base * accuracy * combo * factor, base * best * most * exactly(1));
    lemma_order(exactly(0), base * accuracy * combo * factor);
}

/// On a map of a hundred objects or more there is at least what its length asks for to
/// be memorized, whatever its patterns.
pub proof fn law_long_maps_need_memory(t: Table, state: MemoryState)
    requires
        state.object_count >= 100,
        proper(state.pattern_complexity),
        not_negative(t.power(length_share_of(state), near(135, 100))),
    ensures
        !(state.difficulty(t) is Nan) ==> t.power(length_share_of(state), near(135, 100)).at_most(
            state.difficulty(t),
        ),
{
    lemma_one();
    let power = t.power(length_share_of(state), near(135, 100));
    lemma_near_place(165, 100);
    lemma_near_places(1, 1, 165, 100);
    let hidden = hidden_multiplier_of(state.hidden);
    lemma_multiply_from(power, power, hidden, exactly(1));
    lemma_times_one(power);
    let complexity = state.pattern_complexity / exactly((state.object_count - 1) as nat);
    lemma_proper(state.pattern_complexity, exactly((state.object_count - 1) as nat));
    lemma_held_up_to(complexity, exactly(1));
    lemma_near_place(35, 100);
    let part = near(35, 100) * complexity.clamped(exactly(0), exactly(1));
    lemma_multiply(near(35, 100), complexity.clamped(exactly(0), exactly(1)));
    lemma_add_from(exactly(1), exactly(1), part);
    lemma_multiply_from(power * hidden, power, exactly(1) + part, exactly(1));
    if !(state.difficulty(t) is Nan) {
        lemma_order(power, state.difficulty(t));
    }
}

/// What is remembered of a map never shrinks: an object adds to the count, and to the
/// complexity of the patterns once there is one before it.
pub proof fn law_objects_are_remembered(t: Table, state: MemoryState, curr: OsuDifficultyObject)
    ensures
        ({
            let after = state.processed(t, curr);
            &&& after.object_count == state.object_count + 1
            &&& after.hidden == state.hidden
            &&& after.previous_delta_time == Some(curr.delta_time@)
            &&& after.previous_position == Some((curr.pos_x@, curr.pos_y@))
            &&& state.previous_position is None ==> after.pattern_complexity
                == state.pattern_complexity
        }),
{
}

} // verus!
