//! How dense a map is.
use vstd::arithmetic::power2::lemma_pow2_pos;
use vstd::prelude::*;

use crate::double::Double;
use crate::operators::{ratio, whole};
use crate::order::{
    finite, lemma_clamped, lemma_fraction, lemma_inside, lemma_minus, lemma_minus_order,
    lemma_near_place, lemma_near_places, lemma_negated, lemma_one, lemma_order, lemma_over,
    lemma_over_order, lemma_plus, lemma_plus_order, lemma_settle_fits, lemma_settle_order,
    lemma_share_times, lemma_times, lemma_times_order, lemma_times_share, lemma_whole_place,
    number, place,
};
use crate::osu::difficulty::object::{OsuDifficultyObject, NORMALIZED_DIAMETER};
use crate::query::optional;
use crate::value::{exactly, near, one_units, Value};

verus! {

/// How dense a section is, from two objects a second up to ten.
pub open spec fn density_level(average_interval: Value) -> Value {
    let density = (exactly(1000) / average_interval).clamped(exactly(0), exactly(20));
    ((density - exactly(2)) / exactly(8)).clamped(exactly(0), exactly(1))
}

/// How fast a section is, from 150 ms between objects down to 50 ms.
pub open spec fn speed_level(average_interval: Value) -> Value {
    ((exactly(150) - average_interval) / exactly(100)).clamped(exactly(0), exactly(1))
}

/// How wide a section is, from three quarters of a diameter up to two diameters.
pub open spec fn spacing_level(average_distance: Value) -> Value {
    ((average_distance / exactly(NORMALIZED_DIAMETER as nat) - near(75, 100)) / near(
        125,
        100,
    )).clamped(exactly(0), exactly(1))
}

/// What a section gets for wide spacing, more where it is dense and fast.
pub open spec fn wide_bonus(average_interval: Value, average_distance: Value) -> Value {
    spacing_level(average_distance) * (near(8, 1000) + near(32, 1000) * density_level(
        average_interval,
    ) * speed_level(average_interval))
}

/// What a dense section loses for objects that are close.
pub open spec fn close_penalty(
    object_count: nat,
    average_interval: Value,
    close_objects: nat,
) -> Value {
    exactly(close_objects) / exactly(object_count) * density_level(average_interval) * near(10, 100)
}

/// What a section loses for repeated positions.
pub open spec fn repeated_penalty(object_count: nat, repeated_positions: nat) -> Value {
    exactly(repeated_positions) / exactly(object_count) * near(4, 100)
}

/// How much a section of a map raises or lowers the worth of aim: wide spacing
/// raises it, dense and close objects and repeated positions lower it.
pub open spec fn section_effect_of(
    object_count: nat,
    average_interval: Value,
    average_distance: Value,
    close_objects: nat,
    repeated_positions: nat,
) -> Value {
    (wide_bonus(average_interval, average_distance) - close_penalty(
        object_count,
        average_interval,
        close_objects,
    ) - repeated_penalty(object_count, repeated_positions)).clamped(
        near(10, 100).negated(),
        near(10, 100),
    )
}

/// Where the density of a map stands, section by section.
pub struct DensityState {
    pub section_start: Option<Value>,
    pub object_count: nat,
    pub interval_sum: Value,
    pub distance_sum: Value,
    pub close_objects: nat,
    pub repeated_positions: nat,
    pub section_effects: Seq<(Value, nat)>,
}

/// The start of the section of 400 ms that a time lies in.
pub open spec fn section_of(time: Value) -> Value {
    (time / exactly(400)).floor() * exactly(400)
}

impl DensityState {
    /// No objects.
    pub open spec fn empty() -> DensityState {
        DensityState {
            section_start: None,
            object_count: 0,
            interval_sum: exactly(0),
            distance_sum: exactly(0),
            close_objects: 0,
            repeated_positions: 0,
            section_effects: seq![],
        }
    }

    /// The effect of the section that is open.
    pub open spec fn effect(self) -> Value {
        section_effect_of(
            self.object_count,
            self.interval_sum / exactly(self.object_count),
            self.distance_sum / exactly(self.object_count),
            self.close_objects,
            self.repeated_positions,
        )
    }

    /// The same after the open section is closed, which counts where it has
    /// objects.
    pub open spec fn finished(self) -> DensityState {
        if self.object_count == 0 {
            self
        } else {
            DensityState {
                section_start: self.section_start,
                object_count: 0,
                interval_sum: exactly(0),
                distance_sum: exactly(0),
                close_objects: 0,
                repeated_positions: 0,
                section_effects: self.section_effects.push((self.effect(), self.object_count)),
            }
        }
    }

    /// The same at the section of an object: the first object opens one, and one
    /// past the end of the open section closes it.
    pub open spec fn at(self, time: Value) -> DensityState {
        let start = match self.section_start {
            Some(start) => start,
            None => section_of(time),
        };
        if (start + exactly(400)).at_most(time) {
            DensityState { section_start: Some(section_of(time)), ..self.finished() }
        } else {
            DensityState { section_start: Some(start), ..self }
        }
    }

    /// The same with one more object in the open section.
    pub open spec fn with(self, delta_time: Value, jump_dist: Value) -> DensityState {
        DensityState {
            object_count: self.object_count + 1,
            interval_sum: self.interval_sum + delta_time,
            distance_sum: self.distance_sum + jump_dist,
            close_objects: self.close_objects + if jump_dist.below(
                exactly(NORMALIZED_DIAMETER as nat) * near(75, 100),
            ) {
                1nat
            } else {
                0
            },
            repeated_positions: self.repeated_positions + if jump_dist.at_most(
                exactly(NORMALIZED_DIAMETER as nat) * near(5, 100),
            ) {
                1nat
            } else {
                0
            },
            ..self
        }
    }

    /// The same after an object.
    pub open spec fn processed(self, curr: OsuDifficultyObject) -> DensityState {
        let here = self.at(curr.start_time@);
        if curr.delta_time@.at_most(exactly(0)) {
            here
        } else {
            here.with(curr.delta_time@, curr.lazy_jump_dist@)
        }
    }

    /// The number of objects in the sections that are closed.
    pub open spec fn closed_objects(self) -> nat {
        effect_total(self.section_effects).1
    }

    /// The factor on aim: one where there are no objects.
    pub open spec fn multiplier(self) -> Value {
        let (sum, count) = effect_total(self.finished().section_effects);
        if count == 0 {
            exactly(1)
        } else {
            (exactly(1) + sum / exactly(count)).clamped(near(90, 100), near(110, 100))
        }
    }

    /// Whether the counts of the open section agree.
    pub open spec fn valid(self) -> bool {
        &&& self.close_objects <= self.object_count
        &&& self.repeated_positions <= self.object_count
    }
}

/// The effects of sections, weighted by their objects and added up, and the
/// number of objects.
pub open spec fn effect_total(s: Seq<(Value, nat)>) -> (Value, nat)
    decreases s.len(),
{
    if s.len() == 0 {
        (exactly(0), 0)
    } else {
        let (sum, count) = effect_total(s.drop_last());
        (sum + s.last().0 * exactly(s.last().1), count + s.last().1)
    }
}

/// The effects of a machine list.
pub open spec fn effects_of(s: Seq<(Double, usize)>) -> Seq<(Value, nat)> {
    s.map_values(|e: (Double, usize)| (e.0@, e.1 as nat))
}

/// Estimates how much the worth of aim is affected by the local density of
/// objects.
///
/// This is separate from the strain of aim: density is a modifier of the whole
/// map, and must not make every object of a dense stream contribute more strain
/// just because it is close to another.
#[derive(Clone, Debug)]
pub struct Density {
    pub section_start: Option<Double>,
    pub object_count: usize,
    pub interval_sum: Double,
    pub distance_sum: Double,
    pub close_objects: usize,
    pub repeated_positions: usize,
    pub section_effects: Vec<(Double, usize)>,
}

impl View for Density {
    type V = DensityState;

    open spec fn view(&self) -> DensityState {
        DensityState {
            section_start: optional(self.section_start),
            object_count: self.object_count as nat,
            interval_sum: self.interval_sum@,
            distance_sum: self.distance_sum@,
            close_objects: self.close_objects as nat,
            repeated_positions: self.repeated_positions as nat,
            section_effects: effects_of(self.section_effects@),
        }
    }
}

impl Default for Density {
    fn default() -> (r: Self)
        ensures
            r@ == DensityState::empty(),
    {
        Density::new()
    }
}

/// The start of the section of 400 ms that a time lies in.
fn section(time: Double) -> (r: Double)
    ensures
        r@ == section_of(time@),
{
    (time / whole(400)).floor() * whole(400)
}

impl Density {
    /// The density of no objects.
    pub fn new() -> (r: Self)
        ensures
            r@ == DensityState::empty(),
            r@.valid(),
    {
        let r = Density {
            section_start: None,
            object_count: 0,
            interval_sum: whole(0),
            distance_sum: whole(0),
            close_objects: 0,
            repeated_positions: 0,
            section_effects: Vec::new(),
        };
        proof {
            assert(effects_of(r.section_effects@) =~= seq![]);
        }
        r
    }

    /// Takes up an object.
    pub fn process(&mut self, curr: &OsuDifficultyObject, _objects: &[OsuDifficultyObject])
        requires
            old(self)@.valid(),
            old(self)@.closed_objects() + old(self)@.object_count < usize::MAX,
        ensures
            final(self)@ == old(self)@.processed(*curr),
            final(self)@.valid(),
            final(self)@.closed_objects() + final(self)@.object_count <= old(self)@.closed_objects()
                + old(self)@.object_count + 1,
    {
        let start: Double = match self.section_start {
            Some(start) => start,
            None => section(curr.start_time),
        };
        let ghost before = self@;
        if (start + whole(400)).at_most(curr.start_time) {
            self.finish_section();
            self.section_start = Some(section(curr.start_time));
        } else {
            self.section_start = Some(start);
        }
        proof {
            assert(self@ == before.at(curr.start_time@));
        }
        if curr.delta_time.at_most(whole(0)) {
            return;
        }
        self.object_count = self.object_count + 1;
        self.interval_sum = self.interval_sum + curr.delta_time;
        self.distance_sum = self.distance_sum + curr.lazy_jump_dist;
        if curr.lazy_jump_dist.below(whole(NORMALIZED_DIAMETER) * ratio(75, 100)) {
            self.close_objects = self.close_objects + 1;
        }
        if curr.lazy_jump_dist.at_most(whole(NORMALIZED_DIAMETER) * ratio(5, 100)) {
            self.repeated_positions = self.repeated_positions + 1;
        }
    }

    /// Closes the open section, which counts where it has objects.
    pub fn finish_section(&mut self)
        requires
            old(self)@.valid(),
        ensures
            final(self)@ == old(self)@.finished(),
            final(self)@.valid(),
            final(self)@.closed_objects() + final(self)@.object_count == old(self)@.closed_objects()
                + old(self)@.object_count,
    {
        if self.object_count == 0 {
            return;
        }
        let ghost before = self.section_effects@;
        let average_interval = self.interval_sum / whole(self.object_count as u64);
        let average_distance = self.distance_sum / whole(self.object_count as u64);
        let effect = Self::section_effect(
            self.object_count,
            average_interval,
            average_distance,
            self.close_objects,
            self.repeated_positions,
        );
        let count: usize = self.object_count;
        self.section_effects.push((effect, count));
        self.object_count = 0;
        self.interval_sum = whole(0);
        self.distance_sum = whole(0);
        self.close_objects = 0;
        self.repeated_positions = 0;
        proof {
            assert(effects_of(self.section_effects@) =~= effects_of(before).push(
                (effect@, count as nat),
            ));
            assert(effects_of(self.section_effects@).drop_last() =~= effects_of(before));
        }
    }

    /// How much a section of a map raises or lowers the worth of aim: wide spacing
    /// raises it, dense and close objects and repeated positions lower it.
    pub fn section_effect(
        object_count: usize,
        average_interval: Double,
        average_distance: Double,
        close_objects: usize,
        repeated_positions: usize,
    ) -> (r: Double)
        ensures
            r@ == section_effect_of(
                object_count as nat,
                average_interval@,
                average_distance@,
                close_objects as nat,
                repeated_positions as nat,
            ),
    {
        let density = (whole(1000) / average_interval).clamped(whole(0), whole(20));
        let density_level = ((density - whole(2)) / whole(8)).clamped(whole(0), whole(1));
        let speed_level = ((whole(150) - average_interval) / whole(100)).clamped(
            whole(0),
            whole(1),
        );
        let spacing_level = ((average_distance / whole(NORMALIZED_DIAMETER as u64) - ratio(75, 100))
            / ratio(125, 100)).clamped(whole(0), whole(1));
        let close_ratio = whole(close_objects as u64) / whole(object_count as u64);
        let repeated_ratio = whole(repeated_positions as u64) / whole(object_count as u64);
        let wide_bonus = spacing_level
            * (ratio(8, 1000) + ratio(32, 1000) * density_level * speed_level);
        let close_penalty = close_ratio * density_level * ratio(10, 100);
        let repeated_penalty = repeated_ratio * ratio(4, 100);
        (wide_bonus - close_penalty - repeated_penalty).clamped(
            ratio(10, 100).negated(),
            ratio(10, 100),
        )
    }

    /// The factor on aim: one where there are no objects.
    pub fn multiplier(self) -> (r: Double)
        requires
            self@.valid(),
            self@.closed_objects() + self@.object_count <= usize::MAX,
        ensures
            r@ == self@.multiplier(),
    {
        let mut all = self;
        all.finish_section();
        let ghost effects = effects_of(all.section_effects@);
        let mut sum = whole(0);
        let mut count: usize = 0;
        let mut i: usize = 0;
        proof {
            assert(effects.take(0) =~= seq![]);
        }
        while i < all.section_effects.len()
            invariant
                i <= all.section_effects@.len(),
                effects == effects_of(all.section_effects@),
                effect_total(effects).1 <= usize::MAX,
                (sum@, count as nat) == effect_total(effects.take(i as int)),
            decreases all.section_effects@.len() - i,
        {
            proof {
                assert(effects.take(i + 1).drop_last() =~= effects.take(i as int));
                lemma_effect_count(effects, i + 1);
            }
            let (effect, section_count): (Double, usize) = all.section_effects[i];
            sum = sum + effect * whole(section_count as u64);
            count = count + section_count;
            i = i + 1;
        }
        proof {
            assert(effects.take(i as int) =~= effects);
        }
        if count == 0 {
            whole(1)
        } else {
            (whole(1) + sum / whole(count as u64)).clamped(ratio(90, 100), ratio(110, 100))
        }
    }
}

/// Where the levels of a section stand.
proof fn lemma_levels(average_interval: Value, average_distance: Value)
    requires
        finite(average_interval),
        exactly(0).below(average_interval),
        number(average_distance),
    ensures
        finite(density_level(average_interval)),
        0 <= place(density_level(average_interval)) <= one_units(),
        finite(speed_level(average_interval)),
        0 <= place(speed_level(average_interval)) <= one_units(),
        finite(spacing_level(average_distance)),
        0 <= place(spacing_level(average_distance)) <= one_units(),
        average_distance.at_most(exactly(75)) ==> place(spacing_level(average_distance)) == 0,
{
    lemma_one();
    lemma_whole_place(2);
    lemma_whole_place(8);
    lemma_whole_place(20);
    lemma_whole_place(75);
    lemma_whole_place(100);
    lemma_whole_place(150);
    lemma_whole_place(1000);
    lemma_order(exactly(0), average_interval);
    lemma_order(average_distance, exactly(75));
    let density = (exactly(1000) / average_interval).clamped(exactly(0), exactly(20));
    lemma_over(exactly(1000), average_interval);
    lemma_clamped(exactly(1000) / average_interval, exactly(0), exactly(20));
    lemma_minus(density, exactly(2));
    lemma_over(density - exactly(2), exactly(8));
    lemma_clamped((density - exactly(2)) / exactly(8), exactly(0), exactly(1));
    lemma_minus(exactly(150), average_interval);
    lemma_over(exactly(150) - average_interval, exactly(100));
    lemma_clamped((exactly(150) - average_interval) / exactly(100), exactly(0), exactly(1));
    lemma_near_place(75, 100);
    lemma_near_place(125, 100);
    lemma_near_places(1, 1, 125, 100);
    let spacing = average_distance / exactly(100) - near(75, 100);
    lemma_over(average_distance, exactly(100));
    lemma_minus(average_distance / exactly(100), near(75, 100));
    lemma_over(spacing, near(125, 100));
    lemma_clamped(spacing / near(125, 100), exactly(0), exactly(1));
    if average_distance.at_most(exactly(75)) {
        lemma_over_order(average_distance, exactly(75), exactly(100));
        lemma_fraction(75, 100);
        lemma_minus_order(average_distance / exactly(100), near(75, 100), near(75, 100));
        lemma_minus(near(75, 100), near(75, 100));
        lemma_settle_fits(exactly(0));
    }
}

/// The weight of wide spacing is positive, and no more than two.
proof fn lemma_wide_weight(density: Value, speed: Value)
    requires
        finite(density),
        finite(speed),
        0 <= place(density) <= one_units(),
        0 <= place(speed) <= one_units(),
    ensures
        finite(near(32, 1000) * density * speed),
        0 <= place(near(32, 1000) * density * speed),
        finite(near(8, 1000) + near(32, 1000) * density * speed),
        0 <= place(near(8, 1000) + near(32, 1000) * density * speed),
{
    lemma_one();
    lemma_whole_place(2);
    lemma_near_place(8, 1000);
    lemma_near_place(32, 1000);
    lemma_near_places(8, 1000, 1, 1);
    lemma_near_places(32, 1000, 1, 1);
    let dense = near(32, 1000) * density;
    lemma_times_share(near(32, 1000), density);
    lemma_times_share(dense, speed);
    lemma_plus(near(8, 1000), dense * speed);
    lemma_plus_order(near(8, 1000), dense * speed, exactly(1), exactly(1));
    lemma_plus(exactly(1), exactly(1));
    lemma_settle_fits(exactly(2));
    lemma_settle_fits(exactly(0));
    lemma_settle_order(0, 1, place(near(8, 1000)) + place(dense * speed), 1);
    lemma_inside(exactly(2));
    lemma_inside(near(8, 1000) + dense * speed);
}

/// The parts of the effect of a section: a bonus for wide spacing, and two
/// penalties.
proof fn lemma_effect_parts(
    object_count: nat,
    average_interval: Value,
    average_distance: Value,
    close_objects: nat,
    repeated_positions: nat,
)
    requires
        0 < object_count <= 0x20_0000_0000_0000,
        close_objects <= object_count,
        repeated_positions <= object_count,
        finite(average_interval),
        exactly(0).below(average_interval),
        number(average_distance),
    ensures
        ({
            let wide = wide_bonus(average_interval, average_distance);
            let close = close_penalty(object_count, average_interval, close_objects);
            let repeated = repeated_penalty(object_count, repeated_positions);
            &&& finite(wide) && 0 <= place(wide)
            &&& finite(close) && 0 <= place(close)
            &&& finite(repeated) && 0 <= place(repeated)
            &&& number(wide - close - repeated)
            &&& average_distance.at_most(exactly(75)) ==> place(wide) == 0
        }),
{
    lemma_one();
    lemma_levels(average_interval, average_distance);
    let density = density_level(average_interval);
    let speed = speed_level(average_interval);
    let spacing = spacing_level(average_distance);
    lemma_wide_weight(density, speed);
    let weight = near(8, 1000) + near(32, 1000) * density * speed;
    lemma_share_times(spacing, weight);
    if place(spacing) == 0 {
        lemma_times(spacing, weight);
        assert(place(spacing) * place(weight) == 0) by (nonlinear_arith)
            requires
                place(spacing) == 0,
        ;
        lemma_settle_order(0, one_units(), 0, 1);
        lemma_settle_fits(exactly(0));
    }
    lemma_near_place(10, 100);
    lemma_near_place(4, 100);
    lemma_near_places(10, 100, 1, 1);
    lemma_near_places(4, 100, 1, 1);
    let close_ratio = exactly(close_objects) / exactly(object_count);
    let repeated_ratio = exactly(repeated_positions) / exactly(object_count);
    lemma_fraction(close_objects, object_count);
    lemma_fraction(repeated_positions, object_count);
    lemma_times_share(close_ratio, density);
    lemma_times_share(close_ratio * density, near(10, 100));
    lemma_times_share(repeated_ratio, near(4, 100));
    let wide = wide_bonus(average_interval, average_distance);
    let close = close_penalty(object_count, average_interval, close_objects);
    lemma_minus(wide, close);
    lemma_minus(wide - close, repeated_penalty(object_count, repeated_positions));
}

/// The difference of two numbers that are not below zero is finite.
proof fn lemma_difference(x: Value, y: Value)
    requires
        finite(x),
        finite(y),
        0 <= place(x),
        0 <= place(y),
    ensures
        finite(x - y),
{
    lemma_minus(x, y);
    lemma_negated(y);
    lemma_settle_fits(x);
    lemma_settle_fits(y.negated());
    lemma_settle_order(place(x) - place(y), 1, place(x), 1);
    lemma_settle_order(-place(y), 1, place(x) - place(y), 1);
    lemma_inside(x);
    lemma_inside(y);
    lemma_inside(x - y);
}

/// A section with a larger bonus and smaller penalties has no smaller effect.
proof fn lemma_effect_order(
    wide: Value,
    close: Value,
    repeated: Value,
    more_wide: Value,
    less_close: Value,
    less_repeated: Value,
)
    requires
        finite(wide) && finite(close) && finite(repeated),
        finite(more_wide) && finite(less_close) && finite(less_repeated),
        0 <= place(wide) <= place(more_wide),
        0 <= place(less_close) <= place(close),
        0 <= place(less_repeated) <= place(repeated),
    ensures
        ({
            let low = near(10, 100).negated();
            let high = near(10, 100);
            (wide - close - repeated).clamped(low, high).at_most(
                (more_wide - less_close - less_repeated).clamped(low, high),
            )
        }),
{
    let (first, second) = (wide - close, more_wide - less_close);
    lemma_difference(wide, close);
    lemma_difference(more_wide, less_close);
    lemma_minus(wide, close);
    lemma_minus(more_wide, less_close);
    lemma_settle_order(
        place(wide) - place(close),
        1,
        place(more_wide) - place(less_close),
        1,
    );
    lemma_minus(first, repeated);
    lemma_minus(second, less_repeated);
    lemma_settle_order(
        place(first) - place(repeated),
        1,
        place(second) - place(less_repeated),
        1,
    );
    let (low, high) = (near(10, 100).negated(), near(10, 100));
    lemma_near_place(10, 100);
    lemma_negated(near(10, 100));
    lemma_clamped(first - repeated, low, high);
    lemma_clamped(second - less_repeated, low, high);
    lemma_order(
        (first - repeated).clamped(low, high),
        (second - less_repeated).clamped(low, high),
    );
}

/// The effect of a section lies between a tenth below and a tenth above zero.
pub proof fn law_section_effect_is_small(
    object_count: nat,
    average_interval: Value,
    average_distance: Value,
    close_objects: nat,
    repeated_positions: nat,
)
    requires
        0 < object_count <= 0x20_0000_0000_0000,
        close_objects <= object_count,
        repeated_positions <= object_count,
        finite(average_interval),
        exactly(0).below(average_interval),
        number(average_distance),
    ensures
        ({
            let effect = section_effect_of(
                object_count,
                average_interval,
                average_distance,
                close_objects,
                repeated_positions,
            );
            &&& finite(effect)
            &&& near(10, 100).negated().at_most(effect)
            &&& effect.at_most(near(10, 100))
        }),
{
    lemma_effect_parts(
        object_count,
        average_interval,
        average_distance,
        close_objects,
        repeated_positions,
    );
    let all = wide_bonus(average_interval, average_distance) - close_penalty(
        object_count,
        average_interval,
        close_objects,
    ) - repeated_penalty(object_count, repeated_positions);
    let effect = all.clamped(near(10, 100).negated(), near(10, 100));
    lemma_near_place(10, 100);
    lemma_negated(near(10, 100));
    lemma_clamped(all, near(10, 100).negated(), near(10, 100));
    lemma_order(near(10, 100).negated(), effect);
    lemma_order(effect, near(10, 100));
}

/// A section whose objects are close to each other on average, as repeated
/// positions are, never receives a bonus.
pub proof fn law_repeated_positions_get_no_bonus(
    object_count: nat,
    average_interval: Value,
    average_distance: Value,
    close_objects: nat,
    repeated_positions: nat,
)
    requires
        0 < object_count <= 0x20_0000_0000_0000,
        close_objects <= object_count,
        repeated_positions <= object_count,
        finite(average_interval),
        exactly(0).below(average_interval),
        number(average_distance),
        average_distance.at_most(exactly(75)),
    ensures
        section_effect_of(
            object_count,
            average_interval,
            average_distance,
            close_objects,
            repeated_positions,
        ).at_most(exactly(0)),
{
    lemma_effect_parts(
        object_count,
        average_interval,
        average_distance,
        close_objects,
        repeated_positions,
    );
    let wide = wide_bonus(average_interval, average_distance);
    let close = close_penalty(object_count, average_interval, close_objects);
    let repeated = repeated_penalty(object_count, repeated_positions);
    let zero = exactly(0);
    lemma_one();
    lemma_effect_order(wide, close, repeated, zero, zero, zero);
    lemma_minus(zero, zero);
    lemma_settle_fits(zero);
    lemma_minus(zero - zero, zero);
    lemma_inside(zero);
    lemma_inside(zero - zero);
    let nothing = (zero - zero - zero).clamped(near(10, 100).negated(), near(10, 100));
    let effect = (wide - close - repeated).clamped(near(10, 100).negated(), near(10, 100));
    lemma_near_place(10, 100);
    lemma_negated(near(10, 100));
    lemma_clamped(zero - zero - zero, near(10, 100).negated(), near(10, 100));
    lemma_clamped(wide - close - repeated, near(10, 100).negated(), near(10, 100));
    lemma_order(effect, nothing);
    lemma_order(effect, zero);
}

/// A section that is wider on average never has a smaller effect, all else
/// equal.
pub proof fn law_wider_sections_get_no_less(
    object_count: nat,
    average_interval: Value,
    close: Value,
    wide: Value,
    close_objects: nat,
    repeated_positions: nat,
)
    requires
        0 < object_count <= 0x20_0000_0000_0000,
        close_objects <= object_count,
        repeated_positions <= object_count,
        finite(average_interval),
        exactly(0).below(average_interval),
        number(close),
        number(wide),
        close.at_most(wide),
    ensures
        section_effect_of(
            object_count,
            average_interval,
            close,
            close_objects,
            repeated_positions,
        ).at_most(
            section_effect_of(
                object_count,
                average_interval,
                wide,
                close_objects,
                repeated_positions,
            ),
        ),
{
    lemma_effect_parts(object_count, average_interval, close, close_objects, repeated_positions);
    lemma_effect_parts(object_count, average_interval, wide, close_objects, repeated_positions);
    lemma_one();
    lemma_order(close, wide);
    lemma_whole_place(100);
    lemma_near_place(75, 100);
    lemma_near_place(125, 100);
    lemma_near_places(1, 1, 125, 100);
    lemma_over_order(close, wide, exactly(100));
    lemma_over(close, exactly(100));
    lemma_over(wide, exactly(100));
    let (near_spacing, far_spacing) = (
        close / exactly(100) - near(75, 100),
        wide / exactly(100) - near(75, 100),
    );
    lemma_minus_order(close / exactly(100), wide / exactly(100), near(75, 100));
    lemma_minus(close / exactly(100), near(75, 100));
    lemma_minus(wide / exactly(100), near(75, 100));
    lemma_over_order(near_spacing, far_spacing, near(125, 100));
    lemma_over(near_spacing, near(125, 100));
    lemma_over(far_spacing, near(125, 100));
    lemma_clamped(near_spacing / near(125, 100), exactly(0), exactly(1));
    lemma_clamped(far_spacing / near(125, 100), exactly(0), exactly(1));
    lemma_levels(average_interval, close);
    lemma_levels(average_interval, wide);
    lemma_wide_weight(density_level(average_interval), speed_level(average_interval));
    let weight = near(8, 1000) + near(32, 1000) * density_level(average_interval) * speed_level(
        average_interval,
    );
    lemma_times_order(spacing_level(close), weight, spacing_level(wide), weight);
    let penalty = close_penalty(object_count, average_interval, close_objects);
    let repeated = repeated_penalty(object_count, repeated_positions);
    lemma_effect_order(
        wide_bonus(average_interval, close),
        penalty,
        repeated,
        wide_bonus(average_interval, wide),
        penalty,
        repeated,
    );
}

/// The shorter the interval between objects, the denser and the faster a section.
proof fn lemma_denser(dense: Value, sparse: Value)
    requires
        finite(dense),
        finite(sparse),
        exactly(0).below(dense),
        dense.at_most(sparse),
    ensures
        place(density_level(sparse)) <= place(density_level(dense)),
        place(speed_level(sparse)) <= place(speed_level(dense)),
{
    lemma_one();
    lemma_order(exactly(0), dense);
    lemma_order(dense, sparse);
    lemma_whole_place(2);
    lemma_whole_place(8);
    lemma_whole_place(20);
    lemma_whole_place(100);
    lemma_whole_place(150);
    lemma_whole_place(1000);
    let n = place(exactly(1000)) * one_units();
    let (p, q) = (place(dense), place(sparse));
    assert(n * p <= n * q) by (nonlinear_arith)
        requires
            n >= 0,
            p <= q,
    ;
    lemma_over(exactly(1000), dense);
    lemma_over(exactly(1000), sparse);
    lemma_settle_order(n, q as nat, n, p as nat);
    let (much, little) = (
        (exactly(1000) / dense).clamped(exactly(0), exactly(20)),
        (exactly(1000) / sparse).clamped(exactly(0), exactly(20)),
    );
    lemma_clamped(exactly(1000) / dense, exactly(0), exactly(20));
    lemma_clamped(exactly(1000) / sparse, exactly(0), exactly(20));
    lemma_minus_order(little, much, exactly(2));
    lemma_minus(little, exactly(2));
    lemma_minus(much, exactly(2));
    lemma_over_order(little - exactly(2), much - exactly(2), exactly(8));
    lemma_over(little - exactly(2), exactly(8));
    lemma_over(much - exactly(2), exactly(8));
    lemma_clamped((little - exactly(2)) / exactly(8), exactly(0), exactly(1));
    lemma_clamped((much - exactly(2)) / exactly(8), exactly(0), exactly(1));
    lemma_minus(exactly(150), dense);
    lemma_minus(exactly(150), sparse);
    lemma_settle_order(
        place(exactly(150)) - place(sparse),
        1,
        place(exactly(150)) - place(dense),
        1,
    );
    lemma_over_order(exactly(150) - sparse, exactly(150) - dense, exactly(100));
    lemma_over(exactly(150) - sparse, exactly(100));
    lemma_over(exactly(150) - dense, exactly(100));
    lemma_clamped((exactly(150) - sparse) / exactly(100), exactly(0), exactly(1));
    lemma_clamped((exactly(150) - dense) / exactly(100), exactly(0), exactly(1));
}

/// A denser section without close objects never has a smaller effect than a
/// sparser one, all else equal.
pub proof fn law_denser_wide_sections_get_no_less(
    object_count: nat,
    dense: Value,
    sparse: Value,
    average_distance: Value,
    repeated_positions: nat,
)
    requires
        0 < object_count <= 0x20_0000_0000_0000,
        repeated_positions <= object_count,
        finite(dense),
        finite(sparse),
        exactly(0).below(dense),
        dense.at_most(sparse),
        number(average_distance),
    ensures
        section_effect_of(
            object_count,
            sparse,
            average_distance,
            0,
            repeated_positions,
        ).at_most(
            section_effect_of(object_count, dense, average_distance, 0, repeated_positions),
        ),
{
    lemma_one();
    lemma_order(exactly(0), dense);
    lemma_order(dense, sparse);
    lemma_order(exactly(0), sparse);
    lemma_denser(dense, sparse);
    lemma_levels(dense, average_distance);
    lemma_levels(sparse, average_distance);
    lemma_effect_parts(object_count, dense, average_distance, 0, repeated_positions);
    lemma_effect_parts(object_count, sparse, average_distance, 0, repeated_positions);
    lemma_near_place(8, 1000);
    lemma_near_place(32, 1000);
    let (much, little) = (density_level(dense), density_level(sparse));
    lemma_wide_weight(much, speed_level(dense));
    lemma_wide_weight(little, speed_level(sparse));
    lemma_times_share(near(32, 1000), much);
    lemma_times_share(near(32, 1000), little);
    lemma_times_order(near(32, 1000), little, near(32, 1000), much);
    lemma_times_order(
        near(32, 1000) * little,
        speed_level(sparse),
        near(32, 1000) * much,
        speed_level(dense),
    );
    lemma_plus_order(
        near(8, 1000),
        near(32, 1000) * little * speed_level(sparse),
        near(8, 1000),
        near(32, 1000) * much * speed_level(dense),
    );
    lemma_times_order(
        spacing_level(average_distance),
        near(8, 1000) + near(32, 1000) * little * speed_level(sparse),
        spacing_level(average_distance),
        near(8, 1000) + near(32, 1000) * much * speed_level(dense),
    );
    lemma_no_close_objects(object_count, dense);
    lemma_no_close_objects(object_count, sparse);
    lemma_effect_order(
        wide_bonus(sparse, average_distance),
        close_penalty(object_count, sparse, 0),
        repeated_penalty(object_count, repeated_positions),
        wide_bonus(dense, average_distance),
        close_penalty(object_count, dense, 0),
        repeated_penalty(object_count, repeated_positions),
    );
}

/// Where no objects are close, none are paid for.
proof fn lemma_no_close_objects(object_count: nat, average_interval: Value)
    requires
        0 < object_count <= 0x20_0000_0000_0000,
        finite(average_interval),
        exactly(0).below(average_interval),
    ensures
        place(close_penalty(object_count, average_interval, 0)) == 0,
{
    lemma_one();
    lemma_levels(average_interval, exactly(0));
    lemma_fraction(0, object_count);
    lemma_near_place(10, 100);
    lemma_near_places(10, 100, 1, 1);
    let none = exactly(0) / exactly(object_count);
    lemma_times_share(none, density_level(average_interval));
    lemma_times_share(none * density_level(average_interval), near(10, 100));
}

/// More close objects and more repeated positions never raise the effect of a
/// section.
pub proof fn law_close_objects_only_cost(
    object_count: nat,
    average_interval: Value,
    average_distance: Value,
    few_close: nat,
    many_close: nat,
    few_repeated: nat,
    many_repeated: nat,
)
    requires
        0 < object_count <= 0x20_0000_0000_0000,
        few_close <= many_close <= object_count,
        few_repeated <= many_repeated <= object_count,
        finite(average_interval),
        exactly(0).below(average_interval),
        number(average_distance),
    ensures
        section_effect_of(
            object_count,
            average_interval,
            average_distance,
            many_close,
            many_repeated,
        ).at_most(
            section_effect_of(
                object_count,
                average_interval,
                average_distance,
                few_close,
                few_repeated,
            ),
        ),
{
    lemma_effect_parts(object_count, average_interval, average_distance, few_close, few_repeated);
    lemma_effect_parts(object_count, average_interval, average_distance, many_close, many_repeated);
    lemma_one();
    lemma_levels(average_interval, average_distance);
    lemma_near_place(10, 100);
    lemma_near_places(10, 100, 1, 1);
    lemma_near_place(4, 100);
    let level = density_level(average_interval);
    let count = exactly(object_count);
    lemma_ratios(few_close, many_close, object_count);
    lemma_ratios(few_repeated, many_repeated, object_count);
    lemma_times_share(exactly(few_close) / count, level);
    lemma_times_share(exactly(many_close) / count, level);
    lemma_times_order(exactly(few_close) / count, level, exactly(many_close) / count, level);
    lemma_times_order(
        exactly(few_close) / count * level,
        near(10, 100),
        exactly(many_close) / count * level,
        near(10, 100),
    );
    lemma_times_order(
        exactly(few_repeated) / count,
        near(4, 100),
        exactly(many_repeated) / count,
        near(4, 100),
    );
    lemma_effect_order(
        wide_bonus(average_interval, average_distance),
        close_penalty(object_count, average_interval, many_close),
        repeated_penalty(object_count, many_repeated),
        wide_bonus(average_interval, average_distance),
        close_penalty(object_count, average_interval, few_close),
        repeated_penalty(object_count, few_repeated),
    );
}

/// More of a number of objects are a larger share of them.
proof fn lemma_ratios(few: nat, many: nat, all: nat)
    requires
        few <= many <= all <= 0x20_0000_0000_0000,
        all > 0,
    ensures
        finite(exactly(few) / exactly(all)),
        finite(exactly(many) / exactly(all)),
        0 <= place(exactly(few) / exactly(all)) <= place(exactly(many) / exactly(all))
            <= one_units(),
{
    lemma_fraction(few, all);
    lemma_fraction(many, all);
    let u = one_units();
    assert((few * u) as int * all <= (many * u) as int * all) by (nonlinear_arith)
        requires
            few <= many,
    ;
    lemma_settle_order((few * u) as int, all, (many * u) as int, all);
}

/// Effects that are small add up to a number.
proof fn lemma_effect_total(s: Seq<(Value, nat)>)
    requires
        effect_total(s).1 <= 0x20_0000_0000_0000,
        forall|i: int|
            0 <= i < s.len() ==> finite((#[trigger] s[i]).0) && near(10, 100).negated().at_most(
                s[i].0,
            ) && s[i].0.at_most(near(10, 100)),
    ensures
        finite(effect_total(s).0),
        -(effect_total(s).1 * one_units()) <= place(effect_total(s).0) <= effect_total(s).1
            * one_units(),
    decreases s.len(),
{
    let u = one_units();
    lemma_pow2_pos(1074);
    lemma_whole_place(0);
    if s.len() > 0 {
        let rest = s.drop_last();
        let (sum, count) = effect_total(rest);
        let (effect, n) = s.last();
        assert forall|i: int| 0 <= i < rest.len() implies finite((#[trigger] rest[i]).0) && near(
            10,
            100,
        ).negated().at_most(rest[i].0) && rest[i].0.at_most(near(10, 100)) by {
            assert(rest[i] == s[i]);
        }
        lemma_effect_total(rest);
        assert(s[s.len() - 1] == s.last());
        lemma_near_place(10, 100);
        lemma_negated(near(10, 100));
        lemma_order(near(10, 100).negated(), effect);
        lemma_order(effect, near(10, 100));
        lemma_near_places(10, 100, 1, 1);
        assert(near(1, 1) == exactly(1)) by {
            reveal(Value::ratio);
            reveal(Value::whole);
        }
        lemma_whole_place(1);
        lemma_whole_place(n);
        lemma_whole_place(count + n);
        lemma_settle_fits(exactly(n));
        lemma_settle_fits(exactly(count + n));
        lemma_negated(exactly(n));
        lemma_negated(exactly(count + n));
        lemma_settle_fits(exactly(n).negated());
        lemma_settle_fits(exactly(count + n).negated());
        lemma_times(effect, exactly(n));
        let (p, q) = (place(effect), place(exactly(n)));
        assert(-q * u <= p * q <= q * u) by (nonlinear_arith)
            requires
                -u <= p <= u,
                q >= 0,
        ;
        lemma_settle_order(p * q, u, q, 1);
        lemma_settle_order(-q, 1, p * q, u);
        lemma_inside(exactly(n));
        lemma_inside(effect * exactly(n));
        lemma_plus(sum, effect * exactly(n));
        let t = place(sum) + place(effect * exactly(n));
        assert((count + n) * u == count * u + n * u) by (nonlinear_arith);
        lemma_settle_order(t, 1, ((count + n) * u) as int, 1);
        lemma_settle_order(-((count + n) * u), 1, t, 1);
        lemma_inside(exactly(count + n));
        lemma_inside(sum + effect * exactly(n));
    }
}

/// The factor on aim lies between 0.9 and 1.1, whatever sections a map has.
pub proof fn law_multiplier_stays_near_one(state: DensityState)
    requires
        effect_total(state.finished().section_effects).1 <= 0x20_0000_0000_0000,
        forall|i: int|
            0 <= i < state.finished().section_effects.len() ==> finite(
                (#[trigger] state.finished().section_effects[i]).0,
            ) && near(10, 100).negated().at_most(state.finished().section_effects[i].0)
                && state.finished().section_effects[i].0.at_most(near(10, 100)),
    ensures
        near(90, 100).at_most(state.multiplier()),
        state.multiplier().at_most(near(110, 100)),
{
    let s = state.finished().section_effects;
    let (sum, count) = effect_total(s);
    lemma_effect_total(s);
    lemma_pow2_pos(1074);
    lemma_near_place(90, 100);
    lemma_near_place(110, 100);
    lemma_near_places(90, 100, 1, 1);
    lemma_near_places(1, 1, 110, 100);
    assert(near(1, 1) == exactly(1)) by {
        reveal(Value::ratio);
        reveal(Value::whole);
    }
    lemma_whole_place(1);
    if count > 0 {
        lemma_whole_place(count);
        assert(count * one_units() > 0) by (nonlinear_arith)
            requires
                count > 0,
                one_units() > 0,
        ;
        lemma_over(sum, exactly(count));
        let q = sum / exactly(count);
        // The quotient is no larger than one.
        let u = one_units();
        let (p, d) = (place(sum), place(exactly(count)));
        assert((p * u) * 1 <= u * d) by (nonlinear_arith)
            requires
                p <= d,
                u > 0,
        ;
        assert((-(u as int)) * d <= (p * u) * 1) by (nonlinear_arith)
            requires
                -d <= p,
                u > 0,
        ;
        lemma_settle_fits(exactly(1));
        lemma_negated(exactly(1));
        lemma_settle_fits(exactly(1).negated());
        lemma_settle_order(p * u, d as nat, u as int, 1);
        lemma_settle_order(-(u as int), 1, p * u, d as nat);
        lemma_inside(exactly(1));
        lemma_inside(q);
        lemma_plus(exactly(1), q);
        lemma_clamped(exactly(1) + q, near(90, 100), near(110, 100));
    }
    lemma_order(near(90, 100), state.multiplier());
    lemma_order(state.multiplier(), near(110, 100));
}

/// A part of the sections has no more objects than all of them.
proof fn lemma_effect_count(s: Seq<(Value, nat)>, n: int)
    requires
        0 <= n <= s.len(),
    ensures
        effect_total(s.take(n)).1 <= effect_total(s).1,
    decreases s.len() - n,
{
    if n < s.len() {
        assert(s.take(n + 1).drop_last() =~= s.take(n));
        lemma_effect_count(s, n + 1);
    } else {
        assert(s.take(n) =~= s);
    }
}

} // verus!
