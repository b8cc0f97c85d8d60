//! What holds of the worth of skills, whatever the score.
use vstd::arithmetic::power2::{lemma_pow2_pos, pow2};
use vstd::prelude::*;

use crate::order::{
    finite, lemma_clamped, lemma_dyadic, lemma_fraction, lemma_greater, lemma_inside, lemma_is_one,
    lemma_left_of_one, lemma_lesser, lemma_minus, lemma_near_place, lemma_near_places, lemma_one,
    lemma_order, lemma_over, lemma_over_large, lemma_over_order, lemma_plus, lemma_plus_order,
    lemma_proper, lemma_settle_fits, lemma_settle_order, lemma_share_times, lemma_sum,
    lemma_sum_order, lemma_times, lemma_times_one, lemma_times_order, lemma_times_share,
    lemma_whole_place, number, place, proper,
};
use crate::osu::difficulty::skills::memory::{
    accuracy_share_of, combo_share_of, difficulty_to_performance_of, hit_share_of,
    law_memory_rewards_play, performance_value_of,
};
use crate::osu::performance::calculator::{
    n50_effective_miss_multiplier_of, OsuPerformanceCalculator, Worth,
};
use crate::osu::performance::laws::{
    law_consistency_is_bounded, law_full_combos_are_not_taxed, law_length_bonus_has_a_floor,
    law_no_misses_bypass_combo_scaling, law_other_systems_bypass_consistency, left_by, logs_hits,
};
use crate::powers::{grows, rises};
use crate::query::Table;
use crate::signs::{
    from_on, lemma_add_from, lemma_from_zero, lemma_magnitude, lemma_minus_proper,
    lemma_multiply_from, lemma_multiply_same, lemma_part_from, lemma_ratio_order, lemma_ratio_share,
    not_negative,
};
use crate::value::{exactly, near, one_units, Value};

verus! {

/// A half stands between nothing and one.
pub proof fn lemma_half_place()
    ensures
        finite(near(5, 10)),
        2 * place(near(5, 10)) == one_units(),
        finite(exactly(1) / exactly(2)),
        place(exactly(1) / exactly(2)) == place(near(5, 10)),
{
    lemma_near_place(5, 10);
    lemma_dyadic(32);
    lemma_near_places(5, 10, 32, 64);
    lemma_near_places(32, 64, 5, 10);
    lemma_fraction(1, 2);
    lemma_near_place(1, 2);
    lemma_near_places(1, 2, 32, 64);
    lemma_near_places(32, 64, 1, 2);
}

/// What accuracy leaves of flashlight: from a half to all of it, the more the better.
pub proof fn lemma_accuracy_share(acc: Value)
    requires
        finite(acc),
        0 <= place(acc) <= one_units(),
    ensures
        finite(near(5, 10) + acc / exactly(2)),
        place(near(5, 10)) <= place(near(5, 10) + acc / exactly(2)) <= one_units(),
        place(acc) == one_units() ==> place(near(5, 10) + acc / exactly(2)) == one_units(),
{
    lemma_one();
    lemma_half_place();
    lemma_whole_place(2);
    let half = near(5, 10);
    lemma_over(acc, exactly(2));
    lemma_over_order(acc, exactly(1), exactly(2));
    lemma_inside(exactly(1) / exactly(2));
    lemma_inside(acc / exactly(2));
    lemma_plus(half, acc / exactly(2));
    lemma_settle_fits(half);
    lemma_settle_fits(exactly(1));
    lemma_settle_order(place(half), 1, place(half) + place(acc / exactly(2)), 1);
    lemma_settle_order(place(half) + place(acc / exactly(2)), 1, one_units() as int, 1);
    lemma_inside(exactly(1));
    lemma_inside(half + acc / exactly(2));
    if place(acc) == one_units() {
        lemma_is_one(acc);
    }
}

/// What two skills are worth together.
pub open spec fn joined_of(t: Table, a: Value, b: Value) -> Value {
    t.power(t.power(a, near(11, 10)) + t.power(b, near(11, 10)), exactly(1) / near(11, 10))
}

/// What memorizing a map is worth in a score.
pub open spec fn memory_of(score: OsuPerformanceCalculator, t: Table, misses: Value) -> Value {
    performance_value_of(
        t,
        score.attrs.memory@,
        score.acc@,
        exactly(score.state.max_combo as nat),
        exactly(score.attrs.max_combo as nat),
        misses,
        exactly(score.state.hitresults.total()),
    )
}

/// What flashlight and memory are worth together in a score.
pub open spec fn sight_of(score: OsuPerformanceCalculator, t: Table, misses: Value) -> Value {
    joined_of(t, t.flashlight_performance(score.attrs.flashlight@), memory_of(score, t, misses))
}

/// What misses leave of flashlight.
pub open spec fn lit_share_of(t: Table, misses: Value, total_hits: Value) -> Value {
    if exactly(0).below(misses) {
        near(97, 100) * t.power(
            exactly(1) - t.power(misses / total_hits, near(775, 1000)),
            t.power(misses, near(875, 1000)),
        )
    } else {
        exactly(1)
    }
}

/// Whether the powers of the combos of a score and its map are numbers, that of the
/// map positive.
pub open spec fn combos_count(score: OsuPerformanceCalculator, t: Table) -> bool {
    let full = t.power(exactly(score.attrs.max_combo as nat), near(8, 10));
    let held = t.power(exactly(score.state.max_combo as nat), near(8, 10));
    score.attrs.max_combo > 0 ==> finite(full) && 0 < place(full) && not_negative(held)
}

/// The combo of a score leaves a share of flashlight, and all of it where the combo is
/// full.
pub proof fn law_combos_leave_a_share(score: OsuPerformanceCalculator, t: Table)
    requires
        combos_count(score, t),
    ensures
        ({
            let share = score.get_combo_scaling_factor_of(t);
            &&& exactly(0).at_most(share) && share.at_most(exactly(1))
            &&& score.state.max_combo == score.attrs.max_combo || score.attrs.max_combo == 0
                ==> share == exactly(1)
        }),
{
    lemma_combo_factor(score, t);
    lemma_one();
    let share = score.get_combo_scaling_factor_of(t);
    lemma_order(exactly(0), share);
    lemma_order(share, exactly(1));
}

/// Where the share that a combo leaves stands.
proof fn lemma_combo_factor(score: OsuPerformanceCalculator, t: Table)
    requires
        combos_count(score, t),
    ensures
        ({
            let share = score.get_combo_scaling_factor_of(t);
            &&& finite(share) && 0 <= place(share) <= one_units()
            &&& score.state.max_combo == score.attrs.max_combo || score.attrs.max_combo == 0
                ==> share == exactly(1)
        }),
{
    lemma_one();
    if score.attrs.max_combo > 0 {
        let full = t.power(exactly(score.attrs.max_combo as nat), near(8, 10));
        let held = t.power(exactly(score.state.max_combo as nat), near(8, 10));
        lemma_ratio_share(held, full);
        if held == full {
            lemma_is_one((held / full).lesser(exactly(1)));
        }
    }
}

/// A play with Flashlight is worth from half to all, by its accuracy, of what misses
/// and combo leave of flashlight and memory together. Misses leave all where there
/// are none: a flawless play is worth flashlight and memory together.
pub proof fn law_flashlight_is_worth_sight_and_memory(
    score: OsuPerformanceCalculator,
    t: Table,
    misses: Value,
)
    requires
        score.mods.fl,
        combos_count(score, t),
        finite(score.acc@) && exactly(0).at_most(score.acc@) && score.acc@.at_most(exactly(1)),
        finite(sight_of(score, t, misses)) && exactly(0).at_most(sight_of(score, t, misses)),
        ({
            let left = lit_share_of(t, misses, exactly(score.state.hitresults.total()));
            finite(left) && exactly(0).at_most(left) && left.at_most(exactly(1))
        }),
    ensures
        ({
            let value = score.compute_flashlight_value_of(t, misses);
            let sight = sight_of(score, t, misses);
            let left = lit_share_of(t, misses, exactly(score.state.hitresults.total()));
            let kept = sight * left * score.get_combo_scaling_factor_of(t);
            &&& (kept * near(5, 10)).at_most(value) && value.at_most(kept)
            &&& score.acc@ == exactly(1) ==> value.equals(kept)
            &&& score.acc@ == exactly(1) && !exactly(0).below(misses) && (
            score.state.max_combo == score.attrs.max_combo || score.attrs.max_combo == 0)
                ==> value.equals(sight)
        }),
{
    lemma_one();
    lemma_half_place();
    lemma_combo_factor(score, t);
    let acc = score.acc@;
    lemma_order(exactly(0), acc);
    lemma_order(acc, exactly(1));
    lemma_accuracy_share(acc);
    let value = score.compute_flashlight_value_of(t, misses);
    let sight = sight_of(score, t, misses);
    let left = lit_share_of(t, misses, exactly(score.state.hitresults.total()));
    let combo = score.get_combo_scaling_factor_of(t);
    let factor = near(5, 10) + acc / exactly(2);
    lemma_order(exactly(0), sight);
    lemma_order(exactly(0), left);
    lemma_order(left, exactly(1));
    lemma_times_one(sight);
    lemma_times_share(sight, left);
    lemma_times_share(sight * left, combo);
    let kept = sight * left * combo;
    lemma_times_share(kept, factor);
    lemma_times_share(kept, near(5, 10));
    lemma_times_order(kept, near(5, 10), kept, factor);
    assert(value == kept * factor);
    lemma_order(kept * near(5, 10), value);
    lemma_order(value, kept);
    if acc == exactly(1) {
        lemma_is_one(factor);
        lemma_times_one(kept);
    }
    lemma_times_one(sight * left);
    assert(kept.equals(kept) && sight.equals(sight)) by {
        reveal(Value::equals);
    }
}

/// Under Flashlight a play with a better accuracy, a longer combo and no misses is
/// worth no less than one with misses.
pub proof fn law_flashlight_rewards_play(
    score: OsuPerformanceCalculator,
    other: OsuPerformanceCalculator,
    t: Table,
    misses: Value,
)
    requires
        score.mods.fl && other.mods.fl,
        other.attrs == score.attrs,
        score.state.hitresults.total() == other.state.hitresults.total(),
        score.state.hitresults.total() <= u32::MAX,
        score.state.max_combo <= other.state.max_combo,
        finite(score.acc@) && finite(other.acc@),
        exactly(0).at_most(score.acc@) && score.acc@.at_most(other.acc@),
        other.acc@.at_most(exactly(1)),
        number(misses),
        // The powers that memory is made of.
        rises(t, near(15, 10), accuracy_share_of(score.acc@), accuracy_share_of(other.acc@)),
        rises(
            t,
            near(8, 10),
            combo_share_of(
                exactly(score.state.max_combo as nat),
                exactly(score.attrs.max_combo as nat),
            ),
            combo_share_of(
                exactly(other.state.max_combo as nat),
                exactly(score.attrs.max_combo as nat),
            ),
        ),
        exactly(0).below(misses) ==> rises(
            t,
            near(8, 10),
            hit_share_of(misses, exactly(score.state.hitresults.total())),
            hit_share_of(misses, exactly(score.state.hitresults.total())),
        ),
        finite(difficulty_to_performance_of(t, score.attrs.memory@)),
        place(difficulty_to_performance_of(t, score.attrs.memory@)) >= 0,
        // The powers that join it with flashlight.
        ({
            let a = t.power(t.flashlight_performance(score.attrs.flashlight@), near(11, 10));
            let (x, y) = (memory_of(score, t, misses), memory_of(other, t, exactly(0)));
            let (b, c) = (t.power(x, near(11, 10)), t.power(y, near(11, 10)));
            &&& number(a) && exactly(0).at_most(a)
            &&& grows(t, near(11, 10), x, y)
            &&& grows(t, exactly(1) / near(11, 10), a + b, a + c)
        }),
        finite(sight_of(other, t, exactly(0))),
        // What misses and combos leave.
        combos_count(score, t) && combos_count(other, t),
        grows(
            t,
            near(8, 10),
            exactly(score.state.max_combo as nat),
            exactly(other.state.max_combo as nat),
        ),
        ({
            let left = lit_share_of(t, misses, exactly(score.state.hitresults.total()));
            finite(left) && exactly(0).at_most(left) && left.at_most(exactly(1))
        }),
    ensures
        score.compute_flashlight_value_of(t, misses).at_most(
            other.compute_flashlight_value_of(t, exactly(0)),
        ),
        exactly(0).at_most(score.compute_flashlight_value_of(t, misses)),
{
    lemma_one();
    let total = score.state.hitresults.total();
    let u = one_units();
    lemma_order(exactly(0), score.acc@);
    lemma_order(score.acc@, other.acc@);
    lemma_order(other.acc@, exactly(1));
    law_memory_rewards_play(
        t,
        score.attrs.memory@,
        score.acc@,
        other.acc@,
        score.state.max_combo,
        other.state.max_combo,
        score.attrs.max_combo,
        misses,
        total as u32,
    );
    let (x, y) = (memory_of(score, t, misses), memory_of(other, t, exactly(0)));
    lemma_numbers(x, y);
    lemma_order(exactly(0), x);
    lemma_order(x, y);
    let a = t.power(t.flashlight_performance(score.attrs.flashlight@), near(11, 10));
    let (b, c) = (t.power(x, near(11, 10)), t.power(y, near(11, 10)));
    lemma_order(exactly(0), a);
    lemma_sum(a, b);
    lemma_sum(a, c);
    lemma_sum_order(a, b, a, c);
    let (less, more) = (sight_of(score, t, misses), sight_of(other, t, exactly(0)));
    lemma_inside(less);
    lemma_inside(more);
    let left = lit_share_of(t, misses, exactly(total));
    lemma_order(exactly(0), left);
    lemma_order(left, exactly(1));
    lemma_times_share(less, left);
    lemma_times_one(less);
    lemma_times_one(more);
    lemma_combo_factor(score, t);
    lemma_combo_factor(other, t);
    let (p, q) = (score.get_combo_scaling_factor_of(t), other.get_combo_scaling_factor_of(t));
    lemma_whole_place(score.state.max_combo as nat);
    lemma_whole_place(other.state.max_combo as nat);
    assert(score.state.max_combo * u <= other.state.max_combo * u) by (nonlinear_arith)
        requires
            score.state.max_combo <= other.state.max_combo,
    ;
    if score.attrs.max_combo > 0 {
        lemma_ratio_order(
            t.power(exactly(score.state.max_combo as nat), near(8, 10)),
            t.power(exactly(other.state.max_combo as nat), near(8, 10)),
            t.power(exactly(score.attrs.max_combo as nat), near(8, 10)),
        );
    }
    assert(place(p) <= place(q));
    lemma_times_share(less * left, p);
    lemma_times_share(more, q);
    lemma_times_order(less * left, p, more, q);
    lemma_accuracy_share(score.acc@);
    lemma_accuracy_share(other.acc@);
    lemma_half_place();
    lemma_whole_place(2);
    lemma_over(score.acc@, exactly(2));
    lemma_over(other.acc@, exactly(2));
    lemma_over_order(score.acc@, other.acc@, exactly(2));
    lemma_over_order(other.acc@, exactly(1), exactly(2));
    lemma_inside(exactly(1) / exactly(2));
    lemma_inside(score.acc@ / exactly(2));
    lemma_inside(other.acc@ / exactly(2));
    lemma_plus_order(
        near(5, 10),
        score.acc@ / exactly(2),
        near(5, 10),
        other.acc@ / exactly(2),
    );
    let (f, g) = (near(5, 10) + score.acc@ / exactly(2), near(5, 10) + other.acc@ / exactly(2));
    lemma_times_share(less * left * p, f);
    lemma_times_share(more * q, g);
    lemma_times_order(less * left * p, f, more * q, g);
    lemma_order(exactly(0), exactly(0));
    assert(score.compute_flashlight_value_of(t, misses) == less * left * p * f);
    assert(other.compute_flashlight_value_of(t, exactly(0)) == more * q * g);
    lemma_order(less * left * p * f, more * q * g);
    lemma_order(exactly(0), less * left * p * f);
}

/// What is compared as worth of memory are numbers.
proof fn lemma_numbers(x: Value, y: Value)
    requires
        exactly(0).at_most(x),
        x.at_most(y),
        exists|a: Value, b: Value| x == #[trigger] (a * b),
        exists|a: Value, b: Value| y == #[trigger] (a * b),
    ensures
        number(x),
        number(y),
{
    let (a, b) = choose|a: Value, b: Value| x == #[trigger] (a * b);
    let (c, d) = choose|a: Value, b: Value| y == #[trigger] (a * b);
    lemma_proper(a, b);
    lemma_proper(c, d);
    reveal(Value::below);
    reveal(Value::equals);
}

/// What one skill is worth to a score among others that are worth nothing.
pub open spec fn alone_of(t: Table, power: Value) -> Value {
    t.power(power, exactly(1) / near(11, 10))
}

/// The powers of the skills of a score.
pub open spec fn powers_of(t: Table, w: Worth<Value>) -> Worth<Value> {
    Worth {
        aim: t.power(w.aim, near(105, 100)),
        speed: t.power(w.speed, near(90, 100)),
        acc: t.power(w.acc, near(11, 10)),
        flashlight: t.power(w.flashlight, near(11, 10)),
    }
}

/// The sum of the worth of skills.
pub open spec fn sum_of(w: Worth<Value>) -> Value {
    w.aim + w.speed + w.acc + w.flashlight
}

/// Whether no skill is worth less than nothing.
pub open spec fn counted_up(w: Worth<Value>) -> bool {
    &&& number(w.aim) && 0 <= place(w.aim)
    &&& number(w.speed) && 0 <= place(w.speed)
    &&& number(w.acc) && 0 <= place(w.acc)
    &&& number(w.flashlight) && 0 <= place(w.flashlight)
}

/// Whether every skill is worth no more in one score than in another.
pub open spec fn no_more(a: Worth<Value>, b: Worth<Value>) -> bool {
    &&& place(a.aim) <= place(b.aim)
    &&& place(a.speed) <= place(b.speed)
    &&& place(a.acc) <= place(b.acc)
    &&& place(a.flashlight) <= place(b.flashlight)
}

/// The sum of skills is at least each of them, and keeps their order.
proof fn lemma_sums(a: Worth<Value>, b: Worth<Value>)
    requires
        counted_up(a),
        counted_up(b),
        no_more(a, b),
    ensures
        number(sum_of(a)) && number(sum_of(b)),
        0 <= place(sum_of(a)) <= place(sum_of(b)),
        place(a.aim) <= place(sum_of(a)),
        place(a.speed) <= place(sum_of(a)),
        place(a.acc) <= place(sum_of(a)),
        place(a.flashlight) <= place(sum_of(a)),
{
    lemma_sum(a.aim, a.speed);
    lemma_sum(b.aim, b.speed);
    lemma_sum_order(a.aim, a.speed, b.aim, b.speed);
    lemma_sum(a.aim + a.speed, a.acc);
    lemma_sum(b.aim + b.speed, b.acc);
    lemma_sum_order(a.aim + a.speed, a.acc, b.aim + b.speed, b.acc);
    lemma_sum(a.aim + a.speed + a.acc, a.flashlight);
    lemma_sum(b.aim + b.speed + b.acc, b.flashlight);
    lemma_sum_order(
        a.aim + a.speed + a.acc,
        a.flashlight,
        b.aim + b.speed + b.acc,
        b.flashlight,
    );
}

/// A score is worth at least what each of its skills would be worth alone, under all
/// mods, and no less where its skills are worth more.
pub proof fn law_every_skill_counts(
    score: OsuPerformanceCalculator,
    t: Table,
    less: Worth<Value>,
    more: Worth<Value>,
    power: Value,
)
    requires
        counted_up(powers_of(t, less)) && counted_up(powers_of(t, more)),
        no_more(powers_of(t, less), powers_of(t, more)),
        ({
            let p = powers_of(t, less);
            power == p.aim || power == p.speed || power == p.acc || power == p.flashlight
        }),
        grows(t, exactly(1) / near(11, 10), power, sum_of(powers_of(t, less))),
        grows(
            t,
            exactly(1) / near(11, 10),
            sum_of(powers_of(t, less)),
            sum_of(powers_of(t, more)),
        ),
        finite(score.base_factor_of(t)) && 0 <= place(score.base_factor_of(t)),
    ensures
        ({
            let value = score.combined_of(t, less);
            let alone = alone_of(t, power) * score.base_factor_of(t);
            &&& !(value is Nan) ==> alone.at_most(value)
            &&& !(score.combined_of(t, more) is Nan) ==> value.at_most(score.combined_of(t, more))
        }),
{
    lemma_one();
    let (p, q) = (powers_of(t, less), powers_of(t, more));
    lemma_sums(p, q);
    lemma_sums(p, p);
    let root = exactly(1) / near(11, 10);
    let (x, y, z) = (alone_of(t, power), t.power(sum_of(p), root), t.power(sum_of(q), root));
    let f = score.base_factor_of(t);
    lemma_multiply_same(y, x, f);
    lemma_multiply_same(z, y, f);
    if !((y * f) is Nan) {
        lemma_order(x * f, y * f);
    }
    if !((z * f) is Nan) {
        lemma_order(y * f, z * f);
    }
}

/// A score keeps all of what its skills are worth under Relax and 92% otherwise,
/// but for the spinners that SpunOut takes off.
pub proof fn law_scores_keep_their_skills(score: OsuPerformanceCalculator, t: Table)
    requires
        score.mods.so ==> {
            let p = t.power(
                exactly(score.attrs.n_spinners as nat) / exactly(score.state.hitresults.total()),
                near(85, 100),
            );
            finite(p) && exactly(0).at_most(p) && p.at_most(exactly(1))
        },
    ensures
        ({
            let f = score.base_factor_of(t);
            &&& exactly(0).at_most(f) && f.at_most(exactly(1))
            &&& !score.mods.so ==> near(92, 100).at_most(f)
            &&& !score.mods.so && score.mods.rx ==> f == exactly(1)
        }),
{
    lemma_one();
    lemma_near_place(92, 100);
    lemma_near_places(92, 100, 1, 1);
    let base = if score.mods.rx {
        exactly(1)
    } else {
        near(92, 100)
    };
    let p = t.power(
        exactly(score.attrs.n_spinners as nat) / exactly(score.state.hitresults.total()),
        near(85, 100),
    );
    if score.mods.so {
        lemma_order(exactly(0), p);
        lemma_order(p, exactly(1));
        lemma_left_of_one(p);
        lemma_times_share(base, exactly(1) - p);
    }
    let f = score.base_factor_of(t);
    lemma_order(exactly(0), f);
    lemma_order(f, exactly(1));
    lemma_order(near(92, 100), f);
}

/// The systems for misses treat all skills alike: what two skills are worth the same
/// before them, they are worth the same after them. On a full combo without misses and
/// Mehs they take nothing off.
pub proof fn law_misses_cost_all_skills_alike(
    score: OsuPerformanceCalculator,
    t: Table,
    w: Worth<Value>,
    misses: Value,
    ap_mult: Value,
    nf_mult: Value,
)
    ensures
        ({
            let r = score.after_misses_of(t, w, misses, ap_mult, nf_mult);
            &&& w.aim == w.speed ==> r.aim == r.speed
            &&& w.aim == w.acc ==> r.aim == r.acc
            &&& w.aim == w.flashlight ==> r.aim == r.flashlight
            &&& w.speed == w.acc ==> r.speed == r.acc
            &&& w.speed == w.flashlight ==> r.speed == r.flashlight
            &&& w.acc == w.flashlight ==> r.acc == r.flashlight
        }),
        ({
            let r = score.after_misses_of(t, w, misses, ap_mult, nf_mult);
            t.power(exactly(1), near(35, 100)) == exactly(1) && t.power(exactly(1), near(7, 10))
                == exactly(1) && score.state.max_combo >= score.attrs.max_combo
                && misses.at_most(exactly(0)) && score.state.hitresults.n50 == 0 && !score.mods.ap
                && !score.mods.nf && proper(w.aim) && proper(w.speed) && proper(w.acc) && proper(
                w.flashlight,
            ) ==> r == w
        }),
{
    if t.power(exactly(1), near(35, 100)) == exactly(1) && score.state.max_combo
        >= score.attrs.max_combo && misses.at_most(exactly(0)) && score.state.hitresults.n50 == 0
        && !score.mods.ap && !score.mods.nf {
        lemma_one();
        law_full_combos_are_not_taxed(score, t);
        law_other_systems_bypass_consistency(score, t, misses);
        law_no_misses_bypass_combo_scaling(
            t,
            score.attrs.max_combo,
            score.state.max_combo,
            misses,
        );
        lemma_times_one(exactly(1));
        if proper(w.aim) && proper(w.speed) && proper(w.acc) && proper(w.flashlight) {
            lemma_times_one(w.aim);
            lemma_times_one(w.speed);
            lemma_times_one(w.acc);
            lemma_times_one(w.flashlight);
        }
    }
}

/// How maps stay over their minutes leaves skills alone that have no part in it: under
/// Relax speed and accuracy, under Autopilot aim and accuracy, and without them
/// flashlight. Without them aim, speed and accuracy gain alike.
pub proof fn law_minutes_spare_other_skills(
    score: OsuPerformanceCalculator,
    t: Table,
    w: Worth<Value>,
)
    ensures
        ({
            let r = score.over_minutes_of(t, w);
            &&& r.acc == w.acc || (!score.mods.rx && !score.mods.ap)
            &&& !score.mods.ap && score.mods.rx ==> r.speed == w.speed
            &&& score.mods.ap && !score.mods.rx ==> r.aim == w.aim
            &&& !score.mods.rx && !score.mods.ap ==> r.flashlight == w.flashlight
            &&& !score.mods.rx && !score.mods.ap && w.aim == w.speed ==> r.aim == r.speed
            &&& !score.mods.rx && !score.mods.ap && w.aim == w.acc ==> r.aim == r.acc
        }),
{
}

/// A nerf of up to a half leaves from half to all.
proof fn lemma_kept(nerf: Value, x: Value)
    requires
        finite(nerf) && 0 <= place(nerf) <= place(near(5, 10)),
        finite(x) && 0 <= place(x),
    ensures
        finite(x * (exactly(1) - nerf)),
        0 <= place(x * near(5, 10)) <= place(x * (exactly(1) - nerf)) <= place(x),
        finite(x * near(5, 10)),
{
    lemma_one();
    lemma_half_place();
    let half = near(5, 10);
    lemma_left_of_one(nerf);
    lemma_settle_fits(half);
    lemma_settle_order(place(half), 1, one_units() - place(nerf), 1);
    lemma_times_share(x, half);
    lemma_times_share(x, exactly(1) - nerf);
    lemma_times_order(x, half, x, exactly(1) - nerf);
}

/// How near a number is to the middle of a range is a share.
proof fn lemma_nearness(x: Value, width: Value)
    requires
        number(x),
        finite(width),
        0 < place(width),
    ensures
        ({
            let share = exactly(1) - (x.absolute() / width).lesser(exactly(1));
            finite(share) && 0 <= place(share) <= one_units()
        }),
{
    lemma_one();
    lemma_magnitude(x);
    assert(!(x.absolute() is Nan)) by {
        reveal(Value::absolute);
    }
    lemma_over(x.absolute(), width);
    lemma_lesser(x.absolute() / width, exactly(1));
    let held = (x.absolute() / width).lesser(exactly(1));
    lemma_inside(exactly(1));
    lemma_inside(held);
    lemma_left_of_one(held);
}

/// The nerfs for maps leave at least half of accuracy and a quarter of aim, and all of
/// speed and flashlight, and add to nothing.
pub proof fn law_map_nerfs_leave_most(score: OsuPerformanceCalculator, w: Worth<Value>)
    requires
        finite(w.aim) && 0 <= place(w.aim),
        finite(w.acc) && 0 <= place(w.acc),
        finite(score.attrs.od@) && finite(score.attrs.ar@) && finite(score.attrs.cs@),
        finite(score.attrs.median_delta_time@),
    ensures
        ({
            let r = score.map_nerfs_of(w);
            &&& r.speed == w.speed && r.flashlight == w.flashlight
            &&& r.aim.at_most(w.aim) && (w.aim * near(5, 10) * near(5, 10)).at_most(r.aim)
            &&& r.acc.at_most(w.acc) && (w.acc * near(5, 10)).at_most(r.acc)
        }),
{
    lemma_one();
    lemma_half_place();
    let half = near(5, 10);
    let od = score.attrs.od@;
    let ar = score.attrs.ar@;
    let cs = score.attrs.cs@;
    let md = score.attrs.median_delta_time@;
    let r = score.map_nerfs_of(w);
    lemma_times_share(w.acc, half);
    if od.below(exactly(9)) && !score.mods.rx {
        lemma_whole_place(9);
        lemma_whole_place(3);
        lemma_order(od, exactly(9));
        lemma_minus(exactly(9), od);
        lemma_settle_fits(exactly(0));
        lemma_settle_order(0, 1, place(exactly(9)) - place(od), 1);
        let off = (exactly(9) - od).lesser(exactly(3));
        lemma_lesser(exactly(9) - od, exactly(3));
        lemma_inside(exactly(3));
        lemma_inside(off);
        lemma_near_place(73, 1000);
        lemma_near_places(73, 1000, 5, 64);
        lemma_dyadic(5);
        lemma_dyadic(15);
        lemma_times(near(73, 1000), off);
        lemma_times_order(near(73, 1000), off, near(5, 64), exactly(3));
        lemma_times(near(5, 64), exactly(3));
        let (q, u) = (vstd::arithmetic::power2::pow2(1068), one_units());
        lemma_settle_fits(near(15, 64));
        assert(((5 * q) * (3 * u)) * 1 <= (15 * q) * u) by (nonlinear_arith);
        lemma_settle_order(((5 * q) * (3 * u)) as int, u, (15 * q) as int, 1);
        lemma_inside(near(15, 64));
        lemma_inside(near(73, 1000) * off);
        lemma_kept(near(73, 1000) * off, w.acc);
    }
    lemma_order(r.acc, w.acc);
    lemma_order(w.acc * half, r.acc);
    lemma_times_share(w.aim, half);
    let read = if near(101, 10).below(ar) && ar.at_most(near(105, 10)) && !score.mods.rx {
        let share = exactly(1) - ((ar - near(103, 10)).absolute() / near(2, 10)).lesser(exactly(1));
        lemma_near_place(103, 10);
        lemma_near_place(2, 10);
        lemma_near_places(1, 64, 2, 10);
        lemma_dyadic(1);
        lemma_minus(ar, near(103, 10));
        lemma_nearness(ar - near(103, 10), near(2, 10));
        lemma_near_place(6, 100);
        lemma_near_places(6, 100, 5, 10);
        lemma_times_share(near(6, 100), share);
        lemma_kept(near(6, 100) * share, w.aim);
        w.aim * (exactly(1) - near(6, 100) * share)
    } else {
        w.aim
    };
    lemma_times_share(read, half);
    lemma_times_share(w.aim * half, half);
    lemma_times_order(w.aim * half, half, read, half);
    if exactly(0).below(md) && exactly(176).at_most(md) && md.at_most(exactly(250)) && near(
        46,
        10,
    ).at_most(cs) && cs.at_most(near(64, 10)) {
        let cs_t = exactly(1) - ((cs - near(55, 10)).absolute() / near(9, 10)).lesser(exactly(1));
        let bpm_t = exactly(1) - ((exactly(30_000) / md - exactly(145)).absolute() / exactly(
            25,
        )).lesser(exactly(1));
        lemma_order(exactly(0), md);
        lemma_near_place(55, 10);
        lemma_near_place(9, 10);
        lemma_near_places(1, 64, 9, 10);
        lemma_dyadic(1);
        lemma_minus(cs, near(55, 10));
        lemma_nearness(cs - near(55, 10), near(9, 10));
        lemma_whole_place(30_000);
        lemma_whole_place(145);
        lemma_whole_place(25);
        lemma_over(exactly(30_000), md);
        lemma_minus(exactly(30_000) / md, exactly(145));
        lemma_nearness(exactly(30_000) / md - exactly(145), exactly(25));
        lemma_near_place(10, 100);
        lemma_near_places(10, 100, 5, 10);
        lemma_times_share(near(10, 100), cs_t);
        lemma_times_share(near(10, 100) * cs_t, bpm_t);
        lemma_kept(near(10, 100) * cs_t * bpm_t, read);
    }
    lemma_order(r.aim, w.aim);
    lemma_order(w.aim * half * half, r.aim);
}

/// Whether misses weigh on a skill as numbers: more of them more, and each leaving a
/// share on a map that is lenient on timing.
pub open spec fn misses_weigh(t: Table, relevant: Value, strains: Value, od: Value) -> bool {
    let weight = relevant / (exactly(4) * t.power(t.ln(strains), near(94, 100)));
    let left = t.power(left_by(od), relevant);
    &&& number(weight) && 0 <= place(weight)
    &&& !relevant.at_most(exactly(0)) && !exactly(7).at_most(od) ==> finite(left) && 0 <= place(
        left,
    ) <= one_units()
}

/// What misses leave of a skill at least: 96% by how much they weigh, and three tenths of
/// that on a map that is lenient on timing.
pub open spec fn missed_least_of(t: Table, value: Value, relevant: Value, strains: Value) -> Value {
    let weight = relevant / (exactly(4) * t.power(t.ln(strains), near(94, 100)));
    value * (near(96, 100) / (weight + exactly(1))) * near(30, 100)
}

/// What misses leave of a skill is a share, at most 96%.
proof fn lemma_misses_leave(t: Table, relevant: Value, strains: Value, od: Value, clean: Value)
    requires
        misses_weigh(t, relevant, strains, od),
        finite(clean) && 0 <= place(clean),
    ensures
        ({
            let missed = clean * OsuPerformanceCalculator::calculate_miss_penalty_of(
                t,
                relevant,
                strains,
            ) * OsuPerformanceCalculator::low_od_miss_multiplier_of(t, relevant, od);
            &&& finite(missed) && 0 <= place(missed) <= place(clean)
            &&& place(missed) <= place(clean * near(96, 100))
            &&& finite(clean * near(96, 100))
            &&& finite(missed_least_of(t, clean, relevant, strains))
            &&& 0 <= place(missed_least_of(t, clean, relevant, strains)) <= place(missed)
        }),
{
    lemma_one();
    let weight = relevant / (exactly(4) * t.power(t.ln(strains), near(94, 100)));
    lemma_near_place(96, 100);
    lemma_near_places(96, 100, 1, 1);
    lemma_sum(weight, exactly(1));
    lemma_over_large(near(96, 100), weight + exactly(1));
    let penalty = near(96, 100) / (weight + exactly(1));
    lemma_times_share(clean, penalty);
    let low = OsuPerformanceCalculator::low_od_miss_multiplier_of(t, relevant, od);
    lemma_near_place(30, 100);
    lemma_near_places(30, 100, 1, 1);
    if !relevant.at_most(exactly(0)) && !exactly(7).at_most(od) {
        lemma_greater(t.power(left_by(od), relevant), near(30, 100));
        lemma_inside(exactly(1));
        lemma_inside(low);
    }
    lemma_times_share(clean * penalty, low);
    lemma_times_share(clean, near(96, 100));
    lemma_times_order(clean, penalty, clean, near(96, 100));
    lemma_times_share(clean * penalty, near(30, 100));
    lemma_times_order(clean * penalty, near(30, 100), clean * penalty, low);
}

/// What the accuracy on speed notes leaves of speed.
pub open spec fn tapped_of(score: OsuPerformanceCalculator, t: Table) -> Value {
    t.power(
        (score.acc@ + score.speed_note_accuracy_of(t)) / exactly(2),
        (near(145, 10) - score.attrs.od@) / exactly(2),
    )
}

/// Whether the bonus for what is seen is a number from zero on, where it counts.
pub open spec fn sight_counts(
    score: OsuPerformanceCalculator,
    t: Table,
    slider_factor: Option<Value>,
) -> bool {
    let bonus = t.visibility_bonus(score.mods, score.attrs.ar@, slider_factor);
    score.mods.tc && !score.mods.bl ==> finite(exactly(1) + bonus) && number(bonus)
        && exactly(0).at_most(bonus)
}

/// Speed is worth at least 95% of the performance of the map before its timing counts,
/// without misses and with a tapped score, and no more with misses.
pub proof fn law_speed_is_worth_its_map(
    score: OsuPerformanceCalculator,
    t: Table,
    deviation: Value,
    misses: Value,
)
    requires
        !score.mods.rx,
        0 < score.state.hitresults.total() <= u32::MAX,
        logs_hits(t, score.state.hitresults.total()),
        number(score.acc@),
        ({
            let held = score.acc@.clamped(exactly(0), exactly(1));
            rises(t, exactly(2), held, held)
        }),
        ({
            let performance = t.speed_performance(score.attrs.speed@);
            let bonus = OsuPerformanceCalculator::length_bonus_of(
                t,
                exactly(score.state.hitresults.total()),
                score.acc@,
            );
            let nerf = score.calculate_speed_high_deviation_nerf_of(t, deviation);
            &&& finite(performance) && 0 <= place(performance) && finite(performance * bonus)
            &&& finite(nerf) && 0 <= place(nerf)
            &&& finite(tapped_of(score, t)) && 0 <= place(tapped_of(score, t))
        }),
        sight_counts(score, t, None),
        exactly(0).below(misses) ==> {
            let breaks = score.calculate_estimated_slider_breaks_of(
                t,
                score.attrs.speed_top_weighted_slider_factor@,
                misses,
            );
            misses_weigh(
                t,
                score.relevant_misses_of(breaks, misses),
                score.attrs.speed_difficult_strain_count@,
                score.attrs.od@,
            )
        },
    ensures
        ({
            let clean = score.compute_speed_value_of(t, Some(deviation), exactly(0)).0;
            let missed = score.compute_speed_value_of(t, Some(deviation), misses).0;
            let least = t.speed_performance(score.attrs.speed@) * near(95, 100)
                * score.calculate_speed_high_deviation_nerf_of(t, deviation) * tapped_of(score, t);
            !(clean is Nan) ==> least.at_most(clean) && missed.at_most(clean)
        }),
        exactly(0).below(misses) && !score.mods.bl && !score.mods.tc ==> {
            let missed = score.compute_speed_value_of(t, Some(deviation), misses).0;
            let most = t.speed_performance(score.attrs.speed@)
                * OsuPerformanceCalculator::length_bonus_of(
                t,
                exactly(score.state.hitresults.total()),
                score.acc@,
            ) * near(96, 100) * score.calculate_speed_high_deviation_nerf_of(t, deviation)
                * tapped_of(score, t);
            !(most is Nan) ==> missed.at_most(most)
        },
        exactly(0).below(misses) ==> {
            let missed = score.compute_speed_value_of(t, Some(deviation), misses).0;
            let relevant = score.relevant_misses_of(
                score.calculate_estimated_slider_breaks_of(
                    t,
                    score.attrs.speed_top_weighted_slider_factor@,
                    misses,
                ),
                misses,
            );
            let least = missed_least_of(
                t,
                t.speed_performance(score.attrs.speed@) * near(95, 100),
                relevant,
                score.attrs.speed_difficult_strain_count@,
            ) * score.calculate_speed_high_deviation_nerf_of(t, deviation) * tapped_of(score, t);
            !(missed is Nan) ==> least.at_most(missed)
        },
{
    lemma_one();
    let total = exactly(score.state.hitresults.total());
    let bonus = OsuPerformanceCalculator::length_bonus_of(t, total, score.acc@);
    let performance = t.speed_performance(score.attrs.speed@);
    let nerf = score.calculate_speed_high_deviation_nerf_of(t, deviation);
    let tapped = tapped_of(score, t);
    law_length_bonus_has_a_floor(t, score.state.hitresults.total(), score.acc@);
    lemma_near_place(95, 100);
    lemma_near_places(1, 64, 95, 100);
    lemma_dyadic(1);
    lemma_order(near(95, 100), bonus);
    lemma_order(exactly(0), exactly(0));
    let floor = performance * near(95, 100);
    let clean = performance * bonus;
    lemma_times(performance, near(95, 100));
    lemma_times(performance, bonus);
    lemma_times_order(performance, near(95, 100), performance, bonus);
    let left = if exactly(0).below(misses) {
        let breaks = score.calculate_estimated_slider_breaks_of(
            t,
            score.attrs.speed_top_weighted_slider_factor@,
            misses,
        );
        let relevant = score.relevant_misses_of(breaks, misses);
        lemma_misses_leave(
            t,
            relevant,
            score.attrs.speed_difficult_strain_count@,
            score.attrs.od@,
            clean,
        );
        clean * OsuPerformanceCalculator::calculate_miss_penalty_of(
            t,
            relevant,
            score.attrs.speed_difficult_strain_count@,
        ) * OsuPerformanceCalculator::low_od_miss_multiplier_of(t, relevant, score.attrs.od@)
    } else {
        clean
    };
    let sight = t.visibility_bonus(score.mods, score.attrs.ar@, None);
    lemma_near_place(112, 100);
    lemma_near_places(1, 1, 112, 100);
    let factor = if score.mods.bl {
        near(112, 100)
    } else if score.mods.tc {
        lemma_order(exactly(0), sight);
        lemma_sum(exactly(1), sight);
        exactly(1) + sight
    } else {
        exactly(1)
    };
    lemma_speed_chain(floor, clean, left, factor, nerf, tapped);
    lemma_inside(clean);
    lemma_inside(floor);
    if exactly(0).below(misses) {
        let relevant = score.relevant_misses_of(
            score.calculate_estimated_slider_breaks_of(
                t,
                score.attrs.speed_top_weighted_slider_factor@,
                misses,
            ),
            misses,
        );
        let strains = score.attrs.speed_difficult_strain_count@;
        lemma_least_order(t, floor, clean, relevant, strains, score.attrs.od@);
        lemma_speed_chain(
            missed_least_of(t, floor, relevant, strains),
            left,
            left,
            factor,
            nerf,
            tapped,
        );
        lemma_misses_leave(t, relevant, strains, score.attrs.od@, clean);
        lemma_speed_chain(left, clean * near(96, 100), left, exactly(1), nerf, tapped);
        lemma_times_one(clean * near(96, 100));
    }
    lemma_times_one(clean);
    lemma_times_one(left);
    let v = score.compute_speed_value_of(t, Some(deviation), exactly(0)).0;
    let m = score.compute_speed_value_of(t, Some(deviation), misses).0;
    assert(v == clean * factor * nerf * tapped);
    assert(m == left * factor * nerf * tapped);
}

/// What misses leave at least keeps the order.
proof fn lemma_least_order(
    t: Table,
    floor: Value,
    clean: Value,
    relevant: Value,
    strains: Value,
    od: Value,
)
    requires
        misses_weigh(t, relevant, strains, od),
        finite(floor) && finite(clean),
        0 <= place(floor) <= place(clean),
    ensures
        finite(missed_least_of(t, floor, relevant, strains)),
        0 <= place(missed_least_of(t, floor, relevant, strains)) <= place(
            missed_least_of(t, clean, relevant, strains),
        ),
{
    lemma_misses_leave(t, relevant, strains, od, floor);
    lemma_misses_leave(t, relevant, strains, od, clean);
    lemma_one();
    let weight = relevant / (exactly(4) * t.power(t.ln(strains), near(94, 100)));
    lemma_near_place(96, 100);
    lemma_near_places(96, 100, 1, 1);
    lemma_near_place(30, 100);
    lemma_near_places(30, 100, 1, 1);
    lemma_sum(weight, exactly(1));
    lemma_over_large(near(96, 100), weight + exactly(1));
    let penalty = near(96, 100) / (weight + exactly(1));
    lemma_times_share(floor, penalty);
    lemma_times_share(clean, penalty);
    lemma_times_order(floor, penalty, clean, penalty);
    lemma_times_order(floor * penalty, near(30, 100), clean * penalty, near(30, 100));
}

/// Factors keep the order of what is left after misses, and what is at least.
proof fn lemma_speed_chain(
    floor: Value,
    clean: Value,
    left: Value,
    factor: Value,
    a: Value,
    b: Value,
)
    requires
        finite(clean) && finite(left) && number(floor),
        0 <= place(floor) <= place(clean),
        0 <= place(left) <= place(clean),
        finite(factor) && one_units() <= place(factor),
        finite(a) && 0 <= place(a),
        finite(b) && 0 <= place(b),
    ensures
        ({
            let v = clean * factor * a * b;
            !(v is Nan) ==> (floor * a * b).at_most(v) && (left * factor * a * b).at_most(v)
        }),
{
    lemma_one();
    lemma_inside(factor);
    let v = clean * factor * a * b;
    lemma_multiply_from(clean, floor, factor, exactly(1));
    lemma_times_one(floor);
    lemma_multiply_same(clean * factor, floor, a);
    lemma_multiply_same(clean * factor * a, floor * a, b);
    if !(v is Nan) {
        lemma_order(floor * a * b, v);
    }
    lemma_multiply_same(clean, left, factor);
    lemma_multiply_same(clean * factor, left * factor, a);
    lemma_multiply_same(clean * factor * a, left * factor * a, b);
    if !(v is Nan) {
        lemma_order(left * factor * a * b, v);
    }
}

/// How difficult aim was in a score: on a map with difficult sliders, less the fewer of
/// them were followed.
pub open spec fn aim_difficulty_of(score: OsuPerformanceCalculator, t: Table) -> Value {
    let aim = if score.mods.ap {
        score.attrs.aim@ * score.autopilot_aim_factor_of()
    } else {
        score.attrs.aim@
    };
    if score.rates_sliders() {
        aim * slider_share_of(score, t)
    } else {
        aim
    }
}

/// What the sliders that were not followed leave of aim.
pub open spec fn slider_share_of(score: OsuPerformanceCalculator, t: Table) -> Value {
    (exactly(1) - score.attrs.slider_factor@) * t.power(
        exactly(1) - score.dropped_difficult_sliders_of() / score.attrs.aim_difficult_slider_count@,
        exactly(3),
    ) + score.attrs.slider_factor@
}

/// Sliders that were not followed leave at least what aim is without sliders.
pub proof fn law_sliders_leave_the_rest(score: OsuPerformanceCalculator, t: Table)
    requires
        score.rates_sliders(),
        finite(score.attrs.slider_factor@),
        exactly(0).at_most(score.attrs.slider_factor@),
        score.attrs.slider_factor@.at_most(exactly(1)),
        ({
            let p = t.power(
                exactly(1) - score.dropped_difficult_sliders_of()
                    / score.attrs.aim_difficult_slider_count@,
                exactly(3),
            );
            finite(p) && exactly(0).at_most(p) && p.at_most(exactly(1))
        }),
    ensures
        score.attrs.slider_factor@.at_most(slider_share_of(score, t)),
{
    lemma_one();
    let factor = score.attrs.slider_factor@;
    let p = t.power(
        exactly(1) - score.dropped_difficult_sliders_of() / score.attrs.aim_difficult_slider_count@,
        exactly(3),
    );
    lemma_order(exactly(0), factor);
    lemma_order(factor, exactly(1));
    lemma_order(exactly(0), p);
    lemma_order(p, exactly(1));
    lemma_left_of_one(factor);
    lemma_times_share(exactly(1) - factor, p);
    lemma_sum((exactly(1) - factor) * p, factor);
    lemma_order(factor, slider_share_of(score, t));
}

/// What a map that is played blinds adds to aim.
pub open spec fn blind_of(score: OsuPerformanceCalculator, t: Table, misses: Value) -> Value {
    near(13, 10) + (exactly(score.state.hitresults.total()) * (near(16, 10_000) / (exactly(1)
        + exactly(2) * misses)) * t.power(score.acc@, exactly(16))) * (exactly(1) - near(3, 1000)
        * score.attrs.hp@ * score.attrs.hp@)
}

/// The factor for the density of objects.
pub open spec fn dense_of(score: OsuPerformanceCalculator) -> Value {
    if exactly(0).below(score.attrs.density_multiplier@) {
        score.attrs.density_multiplier@
    } else {
        exactly(1)
    }
}

/// Aim is worth at least 95% of the performance of the map before accuracy counts,
/// without misses, and no more with misses; all of it in proportion to accuracy.
pub proof fn law_aim_is_worth_its_map(score: OsuPerformanceCalculator, t: Table, misses: Value)
    requires
        !score.mods.ap || score.mods.fl,
        0 < score.state.hitresults.total() <= u32::MAX,
        logs_hits(t, score.state.hitresults.total()),
        finite(score.acc@) && 0 <= place(score.acc@),
        ({
            let held = score.acc@.clamped(exactly(0), exactly(1));
            rises(t, exactly(2), held, held)
        }),
        ({
            let performance = t.aim_performance(aim_difficulty_of(score, t));
            let bonus = OsuPerformanceCalculator::length_bonus_of(
                t,
                exactly(score.state.hitresults.total()),
                score.acc@,
            );
            &&& finite(performance) && 0 <= place(performance)
            &&& finite(performance * dense_of(score)) && 0 <= place(performance * dense_of(score))
            &&& finite(performance * dense_of(score) * bonus)
        }),
        sight_counts(score, t, Some(score.attrs.slider_factor@)),
        score.mods.bl ==> finite(blind_of(score, t, exactly(0))) && exactly(1).at_most(
            blind_of(score, t, exactly(0)),
        ),
        exactly(0).below(misses) ==> {
            let breaks = score.calculate_estimated_slider_breaks_of(
                t,
                score.attrs.aim_top_weighted_slider_factor@,
                misses,
            );
            misses_weigh(
                t,
                score.relevant_misses_of(breaks, misses),
                score.attrs.aim_difficult_strain_count@,
                score.attrs.od@,
            )
        },
    ensures
        ({
            let clean = score.compute_aim_value_of(t, exactly(0)).0;
            let missed = score.compute_aim_value_of(t, misses).0;
            let least = t.aim_performance(aim_difficulty_of(score, t)) * dense_of(score) * near(
                95,
                100,
            ) * score.acc@;
            !(clean is Nan) ==> least.at_most(clean) && (!score.mods.bl ==> missed.at_most(clean))
        }),
        exactly(0).below(misses) && !score.mods.bl && !score.mods.tc ==> {
            let missed = score.compute_aim_value_of(t, misses).0;
            let most = t.aim_performance(aim_difficulty_of(score, t)) * dense_of(score)
                * OsuPerformanceCalculator::length_bonus_of(
                t,
                exactly(score.state.hitresults.total()),
                score.acc@,
            ) * near(96, 100) * score.acc@;
            !(most is Nan) ==> missed.at_most(most)
        },
        exactly(0).below(misses) && !score.mods.bl ==> {
            let missed = score.compute_aim_value_of(t, misses).0;
            let relevant = score.relevant_misses_of(
                score.calculate_estimated_slider_breaks_of(
                    t,
                    score.attrs.aim_top_weighted_slider_factor@,
                    misses,
                ),
                misses,
            );
            let least = missed_least_of(
                t,
                t.aim_performance(aim_difficulty_of(score, t)) * dense_of(score) * near(95, 100),
                relevant,
                score.attrs.aim_difficult_strain_count@,
            ) * score.acc@;
            !(missed is Nan) ==> least.at_most(missed)
        },
{
    lemma_one();
    let total = exactly(score.state.hitresults.total());
    let bonus = OsuPerformanceCalculator::length_bonus_of(t, total, score.acc@);
    let dense = t.aim_performance(aim_difficulty_of(score, t)) * dense_of(score);
    law_length_bonus_has_a_floor(t, score.state.hitresults.total(), score.acc@);
    lemma_near_place(95, 100);
    lemma_near_places(1, 64, 95, 100);
    lemma_dyadic(1);
    lemma_order(near(95, 100), bonus);
    lemma_order(exactly(0), exactly(0));
    let floor = dense * near(95, 100);
    let clean = dense * bonus;
    lemma_times(dense, near(95, 100));
    lemma_times(dense, bonus);
    lemma_times_order(dense, near(95, 100), dense, bonus);
    let left = if exactly(0).below(misses) {
        let breaks = score.calculate_estimated_slider_breaks_of(
            t,
            score.attrs.aim_top_weighted_slider_factor@,
            misses,
        );
        let relevant = score.relevant_misses_of(breaks, misses);
        lemma_misses_leave(
            t,
            relevant,
            score.attrs.aim_difficult_strain_count@,
            score.attrs.od@,
            clean,
        );
        clean * OsuPerformanceCalculator::calculate_miss_penalty_of(
            t,
            relevant,
            score.attrs.aim_difficult_strain_count@,
        ) * OsuPerformanceCalculator::low_od_miss_multiplier_of(t, relevant, score.attrs.od@)
    } else {
        clean
    };
    let sight = t.visibility_bonus(score.mods, score.attrs.ar@, Some(score.attrs.slider_factor@));
    let factor = if score.mods.bl {
        lemma_order(exactly(1), blind_of(score, t, exactly(0)));
        blind_of(score, t, exactly(0))
    } else if score.mods.tc {
        lemma_order(exactly(0), sight);
        lemma_sum(exactly(1), sight);
        exactly(1) + sight
    } else {
        exactly(1)
    };
    let acc = score.acc@;
    lemma_speed_chain(floor, clean, left, factor, acc, exactly(1));
    lemma_inside(clean);
    lemma_inside(floor);
    if exactly(0).below(misses) {
        let relevant = score.relevant_misses_of(
            score.calculate_estimated_slider_breaks_of(
                t,
                score.attrs.aim_top_weighted_slider_factor@,
                misses,
            ),
            misses,
        );
        let strains = score.attrs.aim_difficult_strain_count@;
        lemma_least_order(t, floor, clean, relevant, strains, score.attrs.od@);
        let least = missed_least_of(t, floor, relevant, strains);
        lemma_speed_chain(least, left, left, factor, acc, exactly(1));
        lemma_proper(least, acc);
        lemma_times_one(least * acc);
        lemma_misses_leave(t, relevant, strains, score.attrs.od@, clean);
        let most = clean * near(96, 100);
        lemma_speed_chain(left, most, left, exactly(1), acc, exactly(1));
        lemma_times_one(most);
        lemma_proper(most, acc);
        lemma_times_one(most * acc);
        lemma_times_one(left);
        lemma_proper(left, acc);
        lemma_times_one(left * acc);
    }
    lemma_times_one(clean);
    lemma_times_one(left);
    let v = score.compute_aim_value_of(t, exactly(0)).0;
    let m = score.compute_aim_value_of(t, misses).0;
    lemma_proper(clean * factor, acc);
    lemma_proper(left * factor, acc);
    lemma_proper(floor, acc);
    lemma_times_one(clean * factor * acc);
    lemma_times_one(left * factor * acc);
    lemma_times_one(floor * acc);
    assert(v == clean * factor * acc);
    assert(!score.mods.bl ==> m == left * factor * acc);
}

/// The parts that the timing of a score is made of: that of the map, that of the hits
/// and that of the number of objects.
pub open spec fn timing_of(score: OsuPerformanceCalculator, t: Table) -> (Value, Value, Value) {
    (
        t.power(near(152_163, 100_000), score.attrs.od@),
        t.power(score.better_accuracy_of(), exactly(24)),
        t.power(
            exactly(score.timed_objects_of() as nat) / exactly(1000),
            near(3, 10),
        ).lesser(near(115, 100)),
    )
}

/// Whether these are numbers from zero on, and a further power of the accuracy a share.
pub open spec fn timing_counts(score: OsuPerformanceCalculator, t: Table) -> bool {
    let (map, hits, objects) = timing_of(score, t);
    let more = t.power(score.better_accuracy_of(), exactly(10));
    &&& not_negative(map) && not_negative(hits) && not_negative(objects)
    &&& finite(more) && 0 <= place(more) <= one_units()
}

/// Where the factor for accuracy under mods stands.
proof fn lemma_timing_factor(score: OsuPerformanceCalculator, t: Table)
    requires
        timing_counts(score, t),
    ensures
        finite(timing_factor_of(score, t)),
        place(near(6, 10)) <= place(timing_factor_of(score, t)) <= 2 * one_units(),
        0 < place(near(6, 10)) && finite(near(6, 10)),
{
    lemma_one();
    let more = t.power(score.better_accuracy_of(), exactly(10));
    let u = one_units();
    lemma_near_place(6, 10);
    lemma_near_places(1, 64, 6, 10);
    lemma_dyadic(1);
    lemma_near_place(62, 100);
    lemma_near_place(75, 100);
    lemma_near_place(102, 100);
    lemma_near_place(18, 100);
    lemma_near_place(25, 100);
    lemma_near_places(6, 10, 62, 100);
    lemma_near_places(6, 10, 75, 100);
    lemma_near_places(6, 10, 102, 100);
    lemma_near_places(6, 10, 1, 1);
    lemma_near_places(62, 100, 1, 1);
    lemma_near_places(75, 100, 1, 1);
    lemma_near_places(18, 100, 1, 1);
    lemma_near_places(25, 100, 1, 1);
    lemma_near_places(102, 100, 128, 64);
    lemma_dyadic(128);
    lemma_times_share(near(18, 100), more);
    lemma_times_share(near(25, 100), more);
    lemma_whole_place(2);
    lemma_settle_fits(exactly(2));
    lemma_inside(exactly(2));
    let (a, b) = (near(62, 100), near(18, 100) * more);
    let (c, d) = (near(75, 100), near(25, 100) * more);
    lemma_sum(a, b);
    lemma_sum(c, d);
    lemma_plus(a, b);
    lemma_plus(c, d);
    lemma_settle_order(place(a) + place(b), 1, 2 * u as int, 1);
    lemma_settle_order(place(c) + place(d), 1, 2 * u as int, 1);
    lemma_inside(a + b);
    lemma_inside(c + d);
}

/// The factor for accuracy under mods.
pub open spec fn timing_factor_of(score: OsuPerformanceCalculator, t: Table) -> Value {
    let more = t.power(score.better_accuracy_of(), exactly(10));
    if score.mods.rx {
        near(62, 100) + near(18, 100) * more
    } else if score.mods.ap {
        exactly(1)
    } else if score.mods.fl {
        near(102, 100)
    } else {
        near(75, 100) + near(25, 100) * more
    }
}

/// Accuracy is worth at least six tenths of what the timing of map, hits and objects
/// is worth, under all mods.
pub proof fn law_accuracy_is_worth_its_timing(score: OsuPerformanceCalculator, t: Table)
    requires
        timing_counts(score, t),
    ensures
        ({
            let value = score.compute_accuracy_value_of(t);
            let (map, hits, objects) = timing_of(score, t);
            !(value is Nan) ==> (map * hits * near(283, 100) * objects * near(6, 10)).at_most(value)
        }),
{
    lemma_one();
    lemma_timing_factor(score, t);
    let (map, hits, objects) = timing_of(score, t);
    lemma_near_place(283, 100);
    lemma_near_place(114, 100);
    lemma_near_places(1, 1, 114, 100);
    crate::signs::lemma_multiply(map, hits);
    crate::signs::lemma_multiply(map * hits, near(283, 100));
    let timed = map * hits * near(283, 100);
    crate::signs::lemma_multiply(timed, objects);
    let long = timed * objects;
    lemma_multiply_from(long, long, near(114, 100), exactly(1));
    lemma_times_one(long);
    let seen = if score.mods.bl {
        long * near(114, 100)
    } else {
        long
    };
    let factor = timing_factor_of(score, t);
    lemma_multiply_from(seen, long, factor, near(6, 10));
    lemma_proper(timed, objects);
    lemma_proper(long, near(114, 100));
    lemma_times_one(seen);
    let value = score.compute_accuracy_value_of(t);
    assert(value == seen * factor);
    if !(value is Nan) {
        lemma_order(long * near(6, 10), value);
    }
}

/// The accuracy on timed objects is no lower with more points on as many objects, one
/// where all of them were Greats, and never below zero.
pub proof fn law_timing_rewards_points(
    score: OsuPerformanceCalculator,
    other: OsuPerformanceCalculator,
)
    requires
        score.timed_objects_of() == other.timed_objects_of(),
        0 <= score.timed_objects_of() <= u32::MAX,
        score.timing_points_of() <= other.timing_points_of() <= 0x20_0000_0000_0000,
    ensures
        exactly(0).at_most(score.better_accuracy_of()),
        score.better_accuracy_of().at_most(other.better_accuracy_of()),
        score.timed_objects_of() > 0 && score.timing_points_of() == 6 * score.timed_objects_of()
            ==> score.better_accuracy_of() == exactly(1),
{
    lemma_one();
    let n = (score.timed_objects_of() * 6) as nat;
    let u = one_units();
    if n > 0 {
        let (a, b) = (
            if score.timing_points_of() > 0 {
                score.timing_points_of() as nat
            } else {
                0
            },
            if other.timing_points_of() > 0 {
                other.timing_points_of() as nat
            } else {
                0
            },
        );
        lemma_fraction(a, n);
        lemma_fraction(b, n);
        assert((a * u) * n <= (b * u) * n) by (nonlinear_arith)
            requires
                a <= b,
        ;
        lemma_settle_order((a * u) as int, n, (b * u) as int, n);
        if a == n {
            lemma_is_one(exactly(a) / exactly(n));
        }
        lemma_order(exactly(0), score.better_accuracy_of());
        lemma_order(score.better_accuracy_of(), other.better_accuracy_of());
    } else {
        lemma_order(exactly(0), exactly(0));
    }
}

/// The misses that count are at least those that were and at most the objects that were
/// judged, whatever combo and score suggest.
pub proof fn law_misses_count_within_the_score(
    score: OsuPerformanceCalculator,
    t: Table,
    estimated: Value,
)
    requires
        score.state.hitresults.total() <= u32::MAX,
        proper(estimated),
        number(score.attrs.od@),
        proper(t.power(score.attrs.od@ / near(1333, 100), exactly(5))),
    ensures
        exactly(score.state.hitresults.misses as nat).at_most(
            score.counted_misses_of(t, estimated),
        ),
        score.counted_misses_of(t, estimated).at_most(exactly(score.state.hitresults.total())),
{
    lemma_one();
    let h = score.state.hitresults;
    let u = one_units();
    let (misses, total) = (exactly(h.misses as nat), exactly(h.total()));
    lemma_whole_place(h.misses as nat);
    lemma_whole_place(h.total());
    lemma_whole_place(h.n100 as nat);
    lemma_whole_place(h.n50 as nat);
    assert(h.misses * u <= h.total() * u) by (nonlinear_arith)
        requires
            h.misses <= h.total(),
    ;
    let most = estimated.greater(misses);
    if estimated is Nan {
        reveal(Value::greater);
    } else {
        lemma_greater(estimated, misses);
    }
    let held = most.lesser(total);
    lemma_lesser(most, total);
    if score.mods.rx {
        let od = score.attrs.od@;
        let a = if exactly(0).below(od) {
            near(75, 100) * (exactly(1) - od / near(1333, 100)).greater(exactly(0))
        } else {
            exactly(1)
        };
        let b = if exactly(0).below(od) {
            (exactly(1) - t.power(od / near(1333, 100), exactly(5))).greater(exactly(0))
        } else {
            exactly(1)
        };
        let sum = held + exactly(h.n100 as nat) * a + exactly(h.n50 as nat) * b;
        lemma_relax_misses(t, od, held, h.n100, h.n50);
        if sum is Nan {
            reveal(Value::lesser);
        } else {
            lemma_lesser(sum, total);
        }
    }
    let c = score.counted_misses_of(t, estimated);
    lemma_order(misses, c);
    lemma_order(c, total);
}

/// Oks and Mehs add to misses, where they are counted as numbers.
proof fn lemma_relax_misses(t: Table, od: Value, held: Value, n100: u32, n50: u32)
    requires
        number(od),
        number(held) && 0 <= place(held),
        proper(t.power(od / near(1333, 100), exactly(5))),
    ensures
        ({
            let a = if exactly(0).below(od) {
                near(75, 100) * (exactly(1) - od / near(1333, 100)).greater(exactly(0))
            } else {
                exactly(1)
            };
            let b = if exactly(0).below(od) {
                (exactly(1) - t.power(od / near(1333, 100), exactly(5))).greater(exactly(0))
            } else {
                exactly(1)
            };
            from_on(held + exactly(n100 as nat) * a + exactly(n50 as nat) * b, held)
        }),
{
    lemma_one();
    lemma_whole_place(n100 as nat);
    lemma_whole_place(n50 as nat);
    lemma_near_place(75, 100);
    lemma_proper(od, near(1333, 100));
    lemma_minus_proper(exactly(1), od / near(1333, 100));
    lemma_from_zero(exactly(1) - od / near(1333, 100));
    let x = (exactly(1) - od / near(1333, 100)).greater(exactly(0));
    crate::signs::lemma_multiply(near(75, 100), x);
    let a = if exactly(0).below(od) {
        near(75, 100) * x
    } else {
        exactly(1)
    };
    let power = t.power(od / near(1333, 100), exactly(5));
    let y = (exactly(1) - power).greater(exactly(0));
    let b = if exactly(0).below(od) {
        y
    } else {
        exactly(1)
    };
    crate::signs::lemma_multiply(exactly(n100 as nat), a);
    lemma_add_from(held, held, exactly(n100 as nat) * a);
    lemma_minus_proper(exactly(1), power);
    lemma_from_zero(exactly(1) - power);
    crate::signs::lemma_multiply(exactly(n50 as nat), b);
    lemma_add_from(held + exactly(n100 as nat) * a, held, exactly(n50 as nat) * b);
}

/// What the skills of a score are worth after everything that changes them.
pub open spec fn staged_of(
    score: OsuPerformanceCalculator,
    t: Table,
    score_based: Option<Value>,
    ap_mult: Value,
    nf_mult: Value,
) -> Worth<Value> {
    let misses = score.counted_misses_of(
        t,
        match score_based {
            Some(misses) => misses,
            None => score.calculate_combo_based_estimated_miss_count_of(),
        },
    );
    let penalty = score.penalty_misses_of(misses);
    let deviation = score.calculate_speed_deviation_of(t);
    let skills = Worth {
        aim: score.compute_aim_value_of(t, penalty).0,
        speed: score.compute_speed_value_of(t, deviation, penalty).0 * score.speed_rework_of(),
        acc: score.compute_accuracy_value_of(t),
        flashlight: score.compute_flashlight_value_of(t, penalty),
    };
    score.map_nerfs_of(
        score.after_misses_of(t, score.over_minutes_of(t, skills), misses, ap_mult, nf_mult),
    )
}

/// What a rating leaves of a value: at least 88% for timing, and nine tenths of that on
/// a touch device.
pub open spec fn rated_least_of(value: Value) -> Value {
    value * near(88, 100) * near(90, 100)
}

/// What the last factors leave of a value.
proof fn lemma_rated(value: Value, timing: Value, timed: bool, touched: bool)
    requires
        not_negative(value),
        timed ==> from_on(timing, near(88, 100)),
    ensures
        ({
            let a = if timed {
                value * timing
            } else {
                value
            };
            let b = if touched {
                a * near(90, 100)
            } else {
                a
            };
            from_on(b, rated_least_of(value))
        }),
{
    lemma_one();
    lemma_near_place(88, 100);
    lemma_near_place(90, 100);
    lemma_near_places(88, 100, 1, 1);
    lemma_near_places(90, 100, 1, 1);
    lemma_near_places(1, 64, 88, 100);
    lemma_near_places(1, 64, 90, 100);
    lemma_dyadic(1);
    if timed {
        lemma_multiply_from(value, value, timing, near(88, 100));
    } else {
        lemma_part_from(value, value, near(88, 100));
    }
    let a = if timed {
        value * timing
    } else {
        value
    };
    let low = value * near(88, 100);
    if touched {
        lemma_multiply_from(a, low, near(90, 100), near(90, 100));
    } else {
        lemma_part_from(a, low, near(90, 100));
    }
}

/// What a score is worth in all, and for each skill, is at least 88% of what its skills
/// came to, and nine tenths of that on a touch device, where it is a number.
pub proof fn law_ratings_come_of_the_skills(
    score: OsuPerformanceCalculator,
    t: Table,
    score_based: Option<Value>,
    ap_mult: Value,
    nf_mult: Value,
)
    requires
        ({
            let w = staged_of(score, t, score_based, ap_mult, nf_mult);
            &&& not_negative(w.aim) && not_negative(w.speed)
            &&& not_negative(w.acc) && not_negative(w.flashlight)
            &&& not_negative(score.combined_of(t, w))
        }),
    ensures
        ({
            let w = staged_of(score, t, score_based, ap_mult, nf_mult);
            let r = score.rated_of(t, score_based, ap_mult, nf_mult);
            &&& !(r.pp is Nan) ==> rated_least_of(score.combined_of(t, w)).at_most(r.pp)
            &&& !(r.worth.aim is Nan) ==> rated_least_of(w.aim).at_most(r.worth.aim)
            &&& !(r.worth.speed is Nan) ==> rated_least_of(w.speed).at_most(r.worth.speed)
            &&& !(r.worth.acc is Nan) ==> rated_least_of(w.acc).at_most(r.worth.acc)
            &&& !(r.worth.flashlight is Nan) ==> rated_least_of(w.flashlight).at_most(
                r.worth.flashlight,
            )
        }),
{
    lemma_one();
    lemma_near_place(88, 100);
    lemma_near_places(88, 100, 1, 1);
    let w = staged_of(score, t, score_based, ap_mult, nf_mult);
    let r = score.rated_of(t, score_based, ap_mult, nf_mult);
    let deviation = score.calculate_speed_deviation_of(t);
    let strictness = score.attrs.consistency_strictness@;
    let timing = OsuPerformanceCalculator::calculate_consistency_multiplier_of(
        strictness,
        deviation,
    );
    law_consistency_is_bounded(strictness, deviation);
    lemma_consistency_number(strictness, deviation);
    if !(timing is Nan) {
        lemma_order(near(88, 100), timing);
    }
    let (timed, touched) = (!score.mods.ap, score.mods.td);
    let pp = score.combined_of(t, w);
    lemma_rated(pp, timing, timed, touched);
    lemma_rated(w.aim, timing, timed, touched);
    lemma_rated(w.speed, timing, timed, touched);
    lemma_rated(w.acc, timing, timed, touched);
    lemma_rated(w.flashlight, timing, timed, touched);
    if !(r.pp is Nan) {
        lemma_order(rated_least_of(pp), r.pp);
    }
    if !(r.worth.aim is Nan) {
        lemma_order(rated_least_of(w.aim), r.worth.aim);
    }
    if !(r.worth.speed is Nan) {
        lemma_order(rated_least_of(w.speed), r.worth.speed);
    }
    if !(r.worth.acc is Nan) {
        lemma_order(rated_least_of(w.acc), r.worth.acc);
    }
    if !(r.worth.flashlight is Nan) {
        lemma_order(rated_least_of(w.flashlight), r.worth.flashlight);
    }
}

/// What unstable timing leaves is what binary64 has.
proof fn lemma_consistency_number(strictness: Value, deviation: Option<Value>)
    ensures
        proper(
            OsuPerformanceCalculator::calculate_consistency_multiplier_of(strictness, deviation),
        ),
{
    lemma_one();
    lemma_near_place(88, 100);
    lemma_near_places(88, 100, 1, 1);
    if let Some(deviation) = deviation {
        let excess_ur = (deviation * exactly(10) - exactly(10)).greater(exactly(0));
        let ur_factor = (excess_ur / exactly(40)).clamped(exactly(0), exactly(1));
        let taken = near(12, 100) * strictness * ur_factor;
        lemma_proper(near(12, 100) * strictness, ur_factor);
        lemma_minus_proper(exactly(1), taken);
        let left = exactly(1) - taken;
        if left is Nan {
            reveal(Value::clamped);
            reveal(Value::below);
        } else {
            lemma_clamped(left, near(88, 100), exactly(1));
        }
    }
}

/// Where a difference of two numbers stands of which the first is larger.
proof fn lemma_some_left(x: Value, y: Value)
    requires
        number(x),
        finite(y),
        place(y) <= place(x),
        0 <= place(y),
    ensures
        number(x - y),
        0 <= place(x - y),
        place(y) < place(x) ==> 0 < place(x - y),
{
    lemma_one();
    lemma_pow2_pos(2098);
    lemma_minus(x, y);
    lemma_inside(x);
    lemma_settle_fits(exactly(0));
    if finite(x) {
        lemma_settle_order(0, 1, place(x) - place(y), 1);
        vstd::arithmetic::power2::lemma2_to64();
        vstd::arithmetic::power2::lemma_pow2_strictly_increases(0, 2098);
        crate::order::lemma_fits(1, 0);
        let unit = Value::Finite { neg: false, units: 1 };
        assert(1 * pow2(0) == 1);
        assert(finite(unit));
        lemma_settle_fits(unit);
        if place(y) < place(x) {
            lemma_settle_order(1, 1, place(x) - place(y), 1);
        }
    }
}

/// A score with fewer misses than the notes that its deviation is taken of has one,
/// where anything was hit.
pub proof fn law_hits_have_a_deviation(score: OsuPerformanceCalculator, t: Table)
    requires
        score.total_successful_hits_of() > 0,
        score.state.hitresults.total() <= u32::MAX,
        ({
            let total = exactly(score.state.hitresults.total());
            let speed = score.attrs.speed_note_count@;
            let notes = speed + (total - speed) * near(1, 10);
            number(notes) && exactly(score.state.hitresults.misses as nat).below(notes)
        }),
    ensures
        score.calculate_speed_deviation_of(t) is Some,
{
    lemma_one();
    let h = score.state.hitresults;
    let total = exactly(h.total());
    let speed = score.attrs.speed_note_count@;
    let notes = speed + (total - speed) * near(1, 10);
    lemma_whole_place(h.misses as nat);
    lemma_whole_place(h.n50 as nat);
    lemma_whole_place(h.n100 as nat);
    lemma_order(exactly(h.misses as nat), notes);
    lemma_lesser(exactly(h.misses as nat), notes);
    let miss = exactly(h.misses as nat).lesser(notes);
    lemma_inside(exactly(h.misses as nat));
    lemma_inside(miss);
    lemma_some_left(notes, miss);
    let rest = notes - miss;
    let meh = exactly(h.n50 as nat).lesser(rest);
    lemma_lesser(exactly(h.n50 as nat), rest);
    lemma_inside(exactly(h.n50 as nat));
    lemma_inside(meh);
    lemma_some_left(rest, meh);
    let others = rest - meh;
    let ok = exactly(h.n100 as nat).lesser(others);
    lemma_lesser(exactly(h.n100 as nat), others);
    lemma_inside(exactly(h.n100 as nat));
    lemma_inside(ok);
    lemma_some_left(others, ok);
    let great = exactly(0).greater(others - ok);
    lemma_greater(exactly(0), others - ok);
    lemma_sum(great, ok);
    lemma_sum(great + ok, meh);
    let counted = great + ok + meh;
    lemma_order(counted, exactly(0));
    assert(0 < place(counted));
}

/// A play that broke no combo is held to the misses that it has.
pub proof fn law_full_combos_count_their_misses(score: OsuPerformanceCalculator)
    requires
        score.state.hitresults.total() <= u32::MAX,
        score.attrs.max_combo <= score.state.max_combo,
        score.combo_fits(),
    ensures
        score.calculate_combo_based_estimated_miss_count_of().equals(
            exactly(score.state.hitresults.misses as nat),
        ),
{
    lemma_one();
    let h = score.state.hitresults;
    let u = one_units();
    let misses = exactly(h.misses as nat);
    let combo = exactly(score.state.max_combo as nat);
    lemma_whole_place(h.misses as nat);
    lemma_whole_place(score.state.max_combo as nat);
    lemma_whole_place(score.attrs.max_combo as nat);
    lemma_whole_place(score.attrs.n_sliders as nat);
    assert(misses.equals(misses)) by {
        reveal(Value::equals);
    }
    assert(score.attrs.max_combo * u <= score.state.max_combo * u) by (nonlinear_arith)
        requires
            score.attrs.max_combo <= score.state.max_combo,
    ;
    if score.attrs.n_sliders > 0 {
        if score.using_classic_slider_acc {
            let tenth = near(1, 10) * exactly(score.attrs.n_sliders as nat);
            lemma_near_place(1, 10);
            lemma_near_places(1, 10, 1, 1);
            lemma_share_times(near(1, 10), exactly(score.attrs.n_sliders as nat));
            let full = exactly(score.attrs.max_combo as nat) - tenth;
            lemma_minus(exactly(score.attrs.max_combo as nat), tenth);
            lemma_settle_fits(exactly(score.attrs.max_combo as nat));
            lemma_settle_order(
                place(exactly(score.attrs.max_combo as nat)) - place(tenth),
                1,
                place(exactly(score.attrs.max_combo as nat)),
                1,
            );
            lemma_order(combo, full);
            let imperfect = (h.n100 + h.n50 + h.misses) as nat;
            lemma_whole_place(imperfect);
            assert(h.misses * u <= imperfect * u) by (nonlinear_arith)
                requires
                    h.misses <= imperfect,
            ;
            assert(misses.lesser(exactly(imperfect)) == misses) by {
                lemma_order(exactly(imperfect), misses);
                reveal(Value::lesser);
            }
            lemma_minus(misses, misses);
            lemma_settle_fits(exactly(0));
            lemma_order(exactly(0), misses - misses);
        } else {
            let full = (score.attrs.max_combo - score.n_slider_ends_dropped_of()) as nat;
            lemma_whole_place(full);
            assert(full * u <= score.state.max_combo * u) by (nonlinear_arith)
                requires
                    full <= score.state.max_combo,
            ;
            lemma_order(combo, exactly(full));
            let most = (score.n_large_tick_miss_of() + h.misses) as nat;
            lemma_whole_place(most);
            assert(h.misses * u <= most * u) by (nonlinear_arith)
                requires
                    h.misses <= most,
            ;
            lemma_order(exactly(most), misses);
            reveal(Value::lesser);
        }
    }
}

/// A Meh is worth no more than a miss and never less than nothing, whatever the timing
/// of the map.
pub proof fn law_mehs_are_worth_part_of_a_miss(od: Value)
    requires
        number(od),
    ensures
        exactly(0).at_most(n50_effective_miss_multiplier_of(od)),
        n50_effective_miss_multiplier_of(od).at_most(exactly(1)),
{
    lemma_one();
    lemma_half_place();
    let half = near(5, 10);
    let r = n50_effective_miss_multiplier_of(od);
    lemma_whole_place(6);
    lemma_whole_place(7);
    lemma_whole_place(10);
    lemma_whole_place(3);
    lemma_order(od, exactly(1));
    lemma_order(od, exactly(7));
    lemma_order(od, exactly(10));
    lemma_near_place(25, 100);
    lemma_near_places(25, 100, 5, 10);
    lemma_near_places(25, 100, 1, 1);
    if od.at_most(exactly(1)) {
    } else if od.at_most(exactly(7)) {
        lemma_portion(od, 1, 7);
        lemma_times_share((od - exactly(1)) / exactly(6), half);
        lemma_left_of_one((od - exactly(1)) / exactly(6) * half);
    } else if od.at_most(exactly(10)) {
        lemma_portion(od, 7, 10);
        let part = (od - exactly(7)) / exactly(3);
        lemma_share_times(part, near(25, 100));
        lemma_minus(half, part * near(25, 100));
        lemma_settle_fits(exactly(0));
        lemma_settle_fits(half);
        lemma_settle_order(0, 1, place(half) - place(part * near(25, 100)), 1);
        lemma_settle_order(place(half) - place(part * near(25, 100)), 1, place(half), 1);
    } else {
        let raw = near(25, 100) * (exactly(1) - (od - exactly(10)) / near(333, 100));
        lemma_near_place(333, 100);
        lemma_near_places(1, 1, 333, 100);
        lemma_minus(od, exactly(10));
        lemma_over(od - exactly(10), near(333, 100));
        let off = (od - exactly(10)) / near(333, 100);
        lemma_proper(near(25, 100), exactly(1) - off);
        assert(!(raw is Nan)) by {
            lemma_pow2_pos(2098);
            if finite(off) {
                lemma_minus(exactly(1), off);
                lemma_near_places(1, 64, 25, 100);
                lemma_dyadic(1);
                if finite(exactly(1) - off) {
                    lemma_times(near(25, 100), exactly(1) - off);
                } else {
                    reveal(Value::times);
                }
            } else {
                reveal(Value::minus);
                reveal(Value::negated);
                reveal(Value::plus);
                lemma_near_places(1, 64, 25, 100);
                lemma_dyadic(1);
                reveal(Value::times);
            }
        }
        lemma_clamped(raw, exactly(0), near(25, 100));
    }
    lemma_order(exactly(0), r);
    lemma_order(r, exactly(1));
}

/// How far a number is from one natural number to another is a share.
proof fn lemma_portion(x: Value, a: nat, b: nat)
    requires
        number(x),
        a < b <= 100,
        place(exactly(a)) <= place(x) <= place(exactly(b)),
    ensures
        ({
            let part = (x - exactly(a)) / exactly((b - a) as nat);
            finite(part) && 0 <= place(part) <= one_units()
        }),
{
    lemma_one();
    let (u, c) = (one_units(), (b - a) as nat);
    lemma_whole_place(a);
    lemma_whole_place(b);
    lemma_whole_place(c);
    lemma_inside(exactly(a));
    lemma_inside(exactly(b));
    lemma_inside(x);
    lemma_minus(x, exactly(a));
    lemma_minus(exactly(b), exactly(a));
    lemma_settle_fits(exactly(c));
    lemma_settle_fits(exactly(0));
    assert(b * u - a * u == c * u && c * u > 0) by (nonlinear_arith)
        requires
            c == b - a,
            c > 0,
            u > 0,
    ;
    lemma_settle_order(0, 1, place(x) - place(exactly(a)), 1);
    lemma_settle_order(place(x) - place(exactly(a)), 1, (c * u) as int, 1);
    lemma_over(x - exactly(a), exactly(c));
    lemma_fraction(c, c);
    lemma_over_order(x - exactly(a), exactly(c), exactly(c));
    lemma_inside(exactly(1));
    lemma_inside((x - exactly(a)) / exactly(c));
}

/// Without Relax the misses that skills are penalized for are at least those that count,
/// and at most one more for every Meh.
pub proof fn law_mehs_add_to_misses(score: OsuPerformanceCalculator, misses: Value)
    requires
        !score.mods.rx,
        number(score.attrs.od@),
        number(misses) && 0 <= place(misses),
    ensures
        misses.at_most(score.penalty_misses_of(misses)),
        score.penalty_misses_of(misses).at_most(
            misses + exactly(score.state.hitresults.n50 as nat),
        ),
{
    lemma_one();
    let od = score.attrs.od@;
    let mult = n50_effective_miss_multiplier_of(od);
    law_mehs_are_worth_part_of_a_miss(od);
    assert(proper(mult)) by {
        lemma_whole_place(1);
        lemma_near_place(25, 100);
        lemma_near_place(5, 10);
        lemma_proper((od - exactly(1)) / exactly(6), near(5, 10));
        lemma_proper((od - exactly(7)) / exactly(3), near(25, 100));
        lemma_minus_proper(exactly(1), (od - exactly(1)) / exactly(6) * near(5, 10));
        lemma_minus_proper(near(5, 10), (od - exactly(7)) / exactly(3) * near(25, 100));
        lemma_proper(
            near(25, 100),
            exactly(1) - (od - exactly(10)) / near(333, 100),
        );
        reveal(Value::clamped);
    }
    assert(!(mult is Nan)) by {
        reveal(Value::below);
        reveal(Value::equals);
    }
    lemma_order(exactly(0), mult);
    lemma_order(mult, exactly(1));
    lemma_inside(exactly(1));
    lemma_inside(mult);
    let n50 = exactly(score.state.hitresults.n50 as nat);
    lemma_whole_place(score.state.hitresults.n50 as nat);
    lemma_times_share(n50, mult);
    lemma_sum(misses, n50 * mult);
    lemma_sum(misses, n50);
    lemma_sum_order(misses, n50 * mult, misses, n50);
    lemma_order(misses, misses + n50 * mult);
    lemma_order(misses + n50 * mult, misses + n50);
}

} // verus!
