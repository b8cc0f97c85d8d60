//! How strictly a map judges timing.
use vstd::arithmetic::power2::{lemma_pow2_adds, lemma_pow2_pos, pow2};
use vstd::prelude::*;

use crate::double::Double;
use crate::operators::{ratio, whole};
use crate::order::{
    finite, lemma_clamped, lemma_dyadic, lemma_fraction, lemma_inside, lemma_is_one,
    lemma_left_of_one, lemma_minus, lemma_minus_order, lemma_near_place, lemma_near_places,
    lemma_near_units, lemma_nothing, lemma_one, lemma_order, lemma_over, lemma_over_order,
    lemma_plus, lemma_plus_order, lemma_settle_fits, lemma_settle_order, lemma_times,
    lemma_times_one, lemma_times_order, lemma_times_share, lemma_whole_place, number, place,
};
use crate::osu::difficulty::object::OsuDifficultyObject;
use crate::value::{exactly, near, one_units, Value};

verus! {

/// How strict timing is judged on one object: slow patterns more, long jumps after
/// long gaps less.
pub open spec fn object_strictness_of(delta_time: Value, jump_dist: Value) -> Value {
    let slow_factor = ((delta_time - exactly(100)) / exactly(200)).clamped(exactly(0), exactly(1));
    let jump_relief = ((jump_dist - exactly(100))
        / exactly(120)).clamped(exactly(0), exactly(1)) * ((
    delta_time - exactly(150)) / exactly(150)).clamped(exactly(0), exactly(1));
    (near(35, 100) + near(65, 100) * slow_factor) * (exactly(1) - near(65, 100) * jump_relief)
}

/// Measures how strongly a map should punish unstable timing under Relax.
///
/// Slower, tighter patterns are more sensitive to consistency. Large jumps with
/// long gaps are less strict because their timing is naturally harder to keep
/// uniform without being a sign of poor consistency.
#[derive(Clone, Copy, Debug)]
pub struct Consistency {
    /// The strictness of the objects so far, added up.
    pub strictness_sum: Double,
    /// Their number.
    pub object_count: usize,
}

impl Default for Consistency {
    fn default() -> (r: Self)
        ensures
            r.strictness_sum@ == exactly(0),
            r.object_count == 0,
    {
        Consistency { strictness_sum: whole(0), object_count: 0 }
    }
}

/// The strictness of a map: a middling one before any object.
pub open spec fn strictness_of(sum: Value, count: nat) -> Value {
    if count == 0 {
        near(5, 10)
    } else {
        (sum / exactly(count)).clamped(exactly(0), exactly(1))
    }
}

impl Consistency {
    /// The strictness of no objects.
    pub fn new() -> (r: Self)
        ensures
            r.strictness_sum@ == exactly(0),
            r.object_count == 0,
    {
        Consistency { strictness_sum: whole(0), object_count: 0 }
    }

    /// Takes up an object, unless no time passes before it.
    pub fn process(&mut self, curr: &OsuDifficultyObject, _objects: &[OsuDifficultyObject])
        requires
            old(self).object_count < usize::MAX,
        ensures
            curr.delta_time@.at_most(exactly(0)) ==> *final(self) == *old(self),
            !curr.delta_time@.at_most(exactly(0)) ==> {
                &&& final(self).strictness_sum@ == old(self).strictness_sum@ + object_strictness_of(
                    curr.delta_time@,
                    curr.lazy_jump_dist@,
                )
                &&& final(self).object_count == old(self).object_count + 1
            },
    {
        if curr.delta_time.at_most(whole(0)) {
            return;
        }
        self.strictness_sum = self.strictness_sum + Self::object_strictness(
            curr.delta_time,
            curr.lazy_jump_dist,
        );
        self.object_count = self.object_count + 1;
    }

    /// How strict timing is judged on one object: slow patterns more, long jumps after
    /// long gaps less.
    pub fn object_strictness(delta_time: Double, jump_dist: Double) -> (r: Double)
        ensures
            r@ == object_strictness_of(delta_time@, jump_dist@),
    {
        let slow_factor = ((delta_time - whole(100)) / whole(200)).clamped(whole(0), whole(1));
        let jump_relief = ((jump_dist - whole(100)) / whole(120)).clamped(whole(0), whole(1)) * ((
        delta_time - whole(150)) / whole(150)).clamped(whole(0), whole(1));
        (ratio(35, 100) + ratio(65, 100) * slow_factor) * (whole(1) - ratio(65, 100) * jump_relief)
    }

    /// The strictness of the map.
    pub fn strictness(self) -> (r: Double)
        ensures
            r@ == strictness_of(self.strictness_sum@, self.object_count as nat),
    {
        if self.object_count == 0 {
            ratio(5, 10)
        } else {
            (self.strictness_sum / whole(self.object_count as u64)).clamped(whole(0), whole(1))
        }
    }
}

/// What 35 and 65 hundredths make together.
proof fn lemma_hundredths()
    ensures
        place(near(35, 100)) + place(near(65, 100)) == one_units(),
{
    vstd::arithmetic::power2::lemma2_to64_rest();
    let k = pow2(1020);
    lemma_near_units(35, 100, 54, 6_305_039_478_318_694);
    lemma_near_units(65, 100, 53, 5_854_679_515_581_645);
    lemma_pow2_adds(1, 1020);
    lemma_pow2_adds(54, 1020);
    assert(pow2(1) == 2) by {
        vstd::arithmetic::power2::lemma2_to64();
    }
    assert(6_305_039_478_318_694 * k + 5_854_679_515_581_645 * (2 * k) == 0x40_0000_0000_0000 * k)
        by (nonlinear_arith);
}

/// The parts of the strictness of an object: between 0.35 and one for how slow it
/// is, and what is left of one for a jump.
proof fn lemma_strictness_parts(delta_time: Value, jump_dist: Value)
    requires
        number(delta_time),
        number(jump_dist),
    ensures
        ({
            let slow = slow_part(delta_time);
            let jump = jump_part(delta_time, jump_dist);
            &&& finite(slow) && 0 <= place(slow) <= one_units()
            &&& finite(jump) && 0 <= place(jump) <= one_units()
            &&& object_strictness_of(delta_time, jump_dist) == slow * jump
        }),
{
    let u = one_units();
    lemma_hundredths();
    lemma_near_place(35, 100);
    lemma_near_place(65, 100);
    lemma_share(delta_time, 100, 200);
    lemma_share(delta_time, 150, 150);
    lemma_share(jump_dist, 100, 120);
    let slow_factor = share_of(delta_time, 100, 200);
    let relief = share_of(jump_dist, 100, 120) * share_of(delta_time, 150, 150);
    lemma_times_share(near(65, 100), slow_factor);
    lemma_plus_order(near(35, 100), near(65, 100) * slow_factor, near(35, 100), near(65, 100));
    lemma_plus(near(35, 100), near(65, 100) * slow_factor);
    lemma_plus(near(35, 100), near(65, 100));
    lemma_whole_place(1);
    lemma_settle_fits(exactly(1));
    lemma_whole_place(0);
    lemma_settle_fits(exactly(0));
    lemma_settle_order(0, 1, place(near(35, 100)) + place(near(65, 100) * slow_factor), 1);
    lemma_inside(exactly(1));
    lemma_inside(near(35, 100) + near(65, 100) * slow_factor);
    lemma_times_share(share_of(jump_dist, 100, 120), share_of(delta_time, 150, 150));
    lemma_times_share(near(65, 100), relief);
    lemma_left_of_one(near(65, 100) * relief);
}

/// How far a number is from `from` on the way to `from + over`, held between zero
/// and one.
pub open spec fn share_of(x: Value, from: nat, over: nat) -> Value {
    ((x - exactly(from)) / exactly(over)).clamped(exactly(0), exactly(1))
}

/// A share lies between zero and one.
proof fn lemma_share(x: Value, from: nat, over: nat)
    requires
        number(x),
        from <= 1000,
        0 < over <= 1000,
    ensures
        finite(share_of(x, from, over)),
        0 <= place(share_of(x, from, over)) <= one_units(),
        place(x) <= from * one_units() ==> place(share_of(x, from, over)) == 0,
{
    lemma_pow2_pos(1074);
    lemma_whole_place(0);
    lemma_whole_place(1);
    lemma_whole_place(from);
    lemma_whole_place(over);
    assert(over * one_units() > 0) by (nonlinear_arith)
        requires
            over > 0,
            one_units() > 0,
    ;
    lemma_minus(x, exactly(from));
    lemma_over(x - exactly(from), exactly(over));
    lemma_clamped((x - exactly(from)) / exactly(over), exactly(0), exactly(1));
    if place(x) <= from * one_units() {
        lemma_minus_order(x, exactly(from), exactly(from));
        lemma_minus(exactly(from), exactly(from));
        lemma_settle_fits(exactly(0));
    }
}

/// Shares keep the order.
proof fn lemma_share_order(x: Value, y: Value, from: nat, over: nat)
    requires
        number(x),
        number(y),
        place(x) <= place(y),
        from <= 1000,
        0 < over <= 1000,
    ensures
        place(share_of(x, from, over)) <= place(share_of(y, from, over)),
{
    lemma_pow2_pos(1074);
    lemma_whole_place(0);
    lemma_whole_place(1);
    lemma_whole_place(from);
    lemma_whole_place(over);
    assert(over * one_units() > 0) by (nonlinear_arith)
        requires
            over > 0,
            one_units() > 0,
    ;
    lemma_minus(x, exactly(from));
    lemma_minus(y, exactly(from));
    lemma_minus_order(x, y, exactly(from));
    lemma_over(x - exactly(from), exactly(over));
    lemma_over(y - exactly(from), exactly(over));
    lemma_over_order(x - exactly(from), y - exactly(from), exactly(over));
    lemma_clamped((x - exactly(from)) / exactly(over), exactly(0), exactly(1));
    lemma_clamped((y - exactly(from)) / exactly(over), exactly(0), exactly(1));
}

/// The part of strictness that a slow pattern raises.
pub open spec fn slow_part(delta_time: Value) -> Value {
    near(35, 100) + near(65, 100) * share_of(delta_time, 100, 200)
}

/// The part of strictness that a long jump lowers.
pub open spec fn jump_part(delta_time: Value, jump_dist: Value) -> Value {
    exactly(1) - near(65, 100) * (share_of(jump_dist, 100, 120) * share_of(delta_time, 150, 150))
}

/// The strictness of an object lies between zero and one.
pub proof fn law_object_strictness_is_a_share(delta_time: Value, jump_dist: Value)
    requires
        number(delta_time),
        number(jump_dist),
    ensures
        exactly(0).at_most(object_strictness_of(delta_time, jump_dist)),
        object_strictness_of(delta_time, jump_dist).at_most(exactly(1)),
{
    lemma_strictness_parts(delta_time, jump_dist);
    lemma_times_share(slow_part(delta_time), jump_part(delta_time, jump_dist));
    lemma_whole_place(0);
    lemma_whole_place(1);
    lemma_order(exactly(0), object_strictness_of(delta_time, jump_dist));
    lemma_order(object_strictness_of(delta_time, jump_dist), exactly(1));
}

/// Slower patterns are no less strict, where the jump is too short to be
/// relieved.
pub proof fn law_slower_is_stricter(fast: Value, slow: Value, jump_dist: Value)
    requires
        number(fast),
        number(slow),
        number(jump_dist),
        fast.at_most(slow),
        jump_dist.at_most(exactly(100)),
    ensures
        object_strictness_of(fast, jump_dist).at_most(object_strictness_of(slow, jump_dist)),
{
    lemma_whole_place(100);
    lemma_order(fast, slow);
    lemma_order(jump_dist, exactly(100));
    lemma_strictness_parts(fast, jump_dist);
    lemma_strictness_parts(slow, jump_dist);
    lemma_share(fast, 100, 200);
    lemma_share(slow, 100, 200);
    lemma_share_order(fast, slow, 100, 200);
    lemma_near_place(35, 100);
    lemma_near_place(65, 100);
    let (s, t) = (share_of(fast, 100, 200), share_of(slow, 100, 200));
    lemma_times_share(near(65, 100), s);
    lemma_times_share(near(65, 100), t);
    lemma_times_order(near(65, 100), s, near(65, 100), t);
    lemma_plus_order(near(35, 100), near(65, 100) * s, near(35, 100), near(65, 100) * t);
    lemma_unrelieved(fast, jump_dist);
    lemma_unrelieved(slow, jump_dist);
    lemma_times_order(
        slow_part(fast),
        jump_part(fast, jump_dist),
        slow_part(slow),
        jump_part(slow, jump_dist),
    );
    lemma_times_share(slow_part(fast), jump_part(fast, jump_dist));
    lemma_times_share(slow_part(slow), jump_part(slow, jump_dist));
    lemma_order(
        object_strictness_of(fast, jump_dist),
        object_strictness_of(slow, jump_dist),
    );
}

/// A short jump is not relieved.
proof fn lemma_unrelieved(delta_time: Value, jump_dist: Value)
    requires
        number(delta_time),
        number(jump_dist),
        place(jump_dist) <= 100 * one_units(),
    ensures
        place(jump_part(delta_time, jump_dist)) == one_units(),
{
    lemma_share(jump_dist, 100, 120);
    lemma_share(delta_time, 150, 150);
    lemma_near_place(65, 100);
    let relief = share_of(jump_dist, 100, 120) * share_of(delta_time, 150, 150);
    lemma_times_share(share_of(jump_dist, 100, 120), share_of(delta_time, 150, 150));
    lemma_times(near(65, 100), relief);
    assert(place(near(65, 100)) * place(relief) == 0) by (nonlinear_arith)
        requires
            place(relief) == 0,
    ;
    lemma_whole_place(0);
    lemma_settle_fits(exactly(0));
    lemma_pow2_pos(1074);
    lemma_settle_order(0, one_units(), 0, 1);
    lemma_times_share(near(65, 100), relief);
    lemma_left_of_one(near(65, 100) * relief);
    lemma_whole_place(1);
    lemma_settle_fits(exactly(1));
}

/// Longer jumps are no more strict.
pub proof fn law_longer_jumps_are_milder(delta_time: Value, short: Value, long: Value)
    requires
        number(delta_time),
        number(short),
        number(long),
        short.at_most(long),
    ensures
        object_strictness_of(delta_time, long).at_most(object_strictness_of(delta_time, short)),
{
    lemma_order(short, long);
    lemma_strictness_parts(delta_time, short);
    lemma_strictness_parts(delta_time, long);
    lemma_share(short, 100, 120);
    lemma_share(long, 100, 120);
    lemma_share(delta_time, 150, 150);
    lemma_share_order(short, long, 100, 120);
    lemma_near_place(65, 100);
    let d = share_of(delta_time, 150, 150);
    let (s, l) = (share_of(short, 100, 120), share_of(long, 100, 120));
    lemma_times_share(s, d);
    lemma_times_share(l, d);
    lemma_times_order(s, d, l, d);
    lemma_times_share(near(65, 100), s * d);
    lemma_times_share(near(65, 100), l * d);
    lemma_times_order(near(65, 100), s * d, near(65, 100), l * d);
    lemma_near_places(65, 100, 1, 1);
    lemma_near_place(1, 1);
    reveal(Value::ratio);
    reveal(Value::whole);
    lemma_whole_place(1);
    lemma_left_of_one(near(65, 100) * (s * d));
    lemma_left_of_one(near(65, 100) * (l * d));
    lemma_settle_order(
        one_units() - place(near(65, 100) * (l * d)),
        1,
        one_units() - place(near(65, 100) * (s * d)),
        1,
    );
    lemma_times_order(
        slow_part(delta_time),
        jump_part(delta_time, long),
        slow_part(delta_time),
        jump_part(delta_time, short),
    );
    lemma_times_share(slow_part(delta_time), jump_part(delta_time, long));
    lemma_times_share(slow_part(delta_time), jump_part(delta_time, short));
    lemma_order(
        object_strictness_of(delta_time, long),
        object_strictness_of(delta_time, short),
    );
}

/// The strictness of a map lies between zero and one.
pub proof fn law_strictness_is_a_share(sum: Value, count: nat)
    requires
        number(sum),
        count <= 0x20_0000_0000_0000,
    ensures
        exactly(0).at_most(strictness_of(sum, count)),
        strictness_of(sum, count).at_most(exactly(1)),
{
    lemma_whole_place(0);
    lemma_whole_place(1);
    lemma_pow2_pos(1074);
    if count == 0 {
        lemma_near_place(5, 10);
        lemma_near_places(5, 10, 1, 1);
        reveal(Value::ratio);
        reveal(Value::whole);
    } else {
        lemma_whole_place(count);
        assert(count * one_units() > 0) by (nonlinear_arith)
            requires
                count > 0,
                one_units() > 0,
        ;
        lemma_over(sum, exactly(count));
        lemma_clamped(sum / exactly(count), exactly(0), exactly(1));
    }
    lemma_order(exactly(0), strictness_of(sum, count));
    lemma_order(strictness_of(sum, count), exactly(1));
}

/// A share is all from `from + over` on.
proof fn lemma_full_share(x: Value, from: nat, over: nat)
    requires
        number(x),
        from <= 1000,
        0 < over <= 1000,
        (from + over) * one_units() <= place(x),
    ensures
        share_of(x, from, over) == exactly(1),
{
    let u = one_units();
    lemma_one();
    lemma_whole_place(from);
    lemma_whole_place(over);
    lemma_whole_place(from + over);
    assert(over * u > 0 && (from + over) * u == from * u + over * u) by (nonlinear_arith)
        requires
            over > 0,
            u > 0,
    ;
    lemma_minus(x, exactly(from));
    lemma_minus_order(exactly(from + over), x, exactly(from));
    lemma_minus(exactly(from + over), exactly(from));
    lemma_settle_fits(exactly(over));
    let rest = x - exactly(from);
    lemma_over(rest, exactly(over));
    lemma_over_order(exactly(over), rest, exactly(over));
    lemma_fraction(over, over);
    lemma_clamped(rest / exactly(over), exactly(0), exactly(1));
    lemma_is_one(share_of(x, from, over));
}

/// Objects every 300 ms and less often with short jumps are judged in full, those every
/// 100 ms and more often by 35%, and long jumps after long gaps by little more.
pub proof fn law_strictness_has_its_range(delta_time: Value, jump_dist: Value)
    requires
        number(delta_time),
        number(jump_dist),
    ensures
        ({
            let r = object_strictness_of(delta_time, jump_dist);
            &&& exactly(300).at_most(delta_time) && jump_dist.at_most(exactly(100)) ==> r.equals(
                exactly(1),
            )
            &&& delta_time.at_most(exactly(100)) ==> r.equals(near(35, 100))
            &&& exactly(300).at_most(delta_time) && exactly(220).at_most(jump_dist) ==> r.at_most(
                near(23, 64),
            )
        }),
{
    lemma_one();
    let u = one_units();
    lemma_whole_place(100);
    lemma_whole_place(220);
    lemma_whole_place(300);
    lemma_order(exactly(300), delta_time);
    lemma_order(jump_dist, exactly(100));
    lemma_order(delta_time, exactly(100));
    lemma_order(exactly(220), jump_dist);
    lemma_strictness_parts(delta_time, jump_dist);
    lemma_hundredths();
    lemma_near_place(35, 100);
    lemma_near_place(65, 100);
    lemma_near_places(35, 100, 1, 1);
    lemma_near_places(65, 100, 1, 1);
    let (slow, jump) = (slow_part(delta_time), jump_part(delta_time, jump_dist));
    let r = object_strictness_of(delta_time, jump_dist);
    lemma_times_share(slow, jump);
    lemma_share(delta_time, 100, 200);
    lemma_share(delta_time, 150, 150);
    lemma_share(jump_dist, 100, 120);
    reveal(Value::equals);
    if 300 * u <= place(delta_time) {
        lemma_full_share(delta_time, 100, 200);
        lemma_full_share(delta_time, 150, 150);
        lemma_times_one(near(65, 100));
        lemma_plus(near(35, 100), near(65, 100));
        lemma_settle_fits(exactly(1));
        lemma_is_one(slow);
        lemma_times_one(jump);
        crate::signs::lemma_commutes(exactly(1), jump);
        if place(jump_dist) <= 100 * u {
            lemma_unrelieved(delta_time, jump_dist);
        }
        if 220 * u <= place(jump_dist) {
            lemma_full_share(jump_dist, 100, 120);
            lemma_times_one(exactly(1));
            lemma_left_of_one(near(65, 100));
            lemma_dyadic(41);
            lemma_dyadic(23);
            lemma_near_places(41, 64, 65, 100);
            lemma_settle_fits(near(23, 64));
            lemma_settle_order(u - place(near(65, 100)), 1, place(near(23, 64)), 1);
            lemma_order(r, near(23, 64));
        }
    }
    if place(delta_time) <= 100 * u {
        let none = share_of(delta_time, 100, 200);
        lemma_nothing(none, near(65, 100));
        lemma_plus(near(35, 100), near(65, 100) * none);
        lemma_settle_fits(near(35, 100));
        let late = share_of(delta_time, 150, 150);
        lemma_nothing(late, share_of(jump_dist, 100, 120));
        lemma_nothing(share_of(jump_dist, 100, 120) * late, near(65, 100));
        lemma_nothing(near(65, 100) * (share_of(jump_dist, 100, 120) * late), exactly(1));
        lemma_times_one(slow);
    }
}

} // verus!
