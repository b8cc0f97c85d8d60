//! What holds of the counts and shares that scores are judged by.
use vstd::arithmetic::power2::pow2;
use vstd::prelude::*;

use crate::order::{
    finite, lemma_clamped, lemma_dyadic, lemma_exact_product, lemma_fraction, lemma_greater,
    lemma_inside, lemma_is_one, lemma_lesser, lemma_minus, lemma_minus_order, lemma_near_place,
    lemma_near_places, lemma_nothing, lemma_one, lemma_order, lemma_over, lemma_over_order,
    lemma_plus, lemma_settle_dyadic, lemma_settle_fits, lemma_settle_order, lemma_sum,
    lemma_times_one, lemma_times_share, lemma_whole_place, number, place,
};
use crate::osu::performance::calculator::{
    n50_effective_miss_multiplier_of, OsuPerformanceCalculator,
};
use crate::query::Table;
use crate::signs::{lemma_commutes, lemma_factor_order};
use crate::value::{exactly, near, one_units, Value};

verus! {

/// The combo that a score reaches where nothing breaks it.
pub open spec fn full_combo_of(score: OsuPerformanceCalculator) -> Value {
    if score.using_classic_slider_acc {
        exactly(score.attrs.max_combo as nat) - near(1, 10) * exactly(score.attrs.n_sliders as nat)
    } else {
        exactly((score.attrs.max_combo - score.n_slider_ends_dropped_of()) as nat)
    }
}

/// Short combos give misses away: a score with a combo that fits `k` times into the full
/// one has as many misses, as far as it has so many mistakes, on maps with sliders.
pub proof fn law_short_combos_give_misses_away(
    score: OsuPerformanceCalculator,
    k: nat,
    count: nat,
)
    requires
        score.attrs.n_sliders > 0,
        0 <= score.n_large_tick_miss_of(),
        2 <= k <= u32::MAX,
        count <= k,
        0 < score.state.max_combo,
        finite(full_combo_of(score)),
        exactly(k * score.state.max_combo as nat).at_most(full_combo_of(score)),
        k * score.state.max_combo <= u32::MAX,
        score.using_classic_slider_acc ==> {
            let h = score.state.hitresults;
            &&& count <= h.n100 + h.n50 + h.misses <= u32::MAX
            &&& count <= h.misses + score.possible_slider_breaks_of()
        },
        !score.using_classic_slider_acc ==> count <= score.n_large_tick_miss_of()
            + score.state.hitresults.misses <= u32::MAX,
    ensures
        exactly(count).at_most(score.calculate_combo_based_estimated_miss_count_of()),
{
    lemma_one();
    let u = one_units();
    let c = score.state.max_combo as nat;
    let full = full_combo_of(score);
    lemma_whole_place(c);
    lemma_whole_place(k);
    lemma_whole_place(k * c);
    lemma_whole_place(count);
    lemma_order(exactly(k * c), full);
    assert(c < k * c) by (nonlinear_arith)
        requires
            2 <= k,
            0 < c,
    ;
    assert(c * u < (k * c) * u && u <= c * u && count * u <= k * u) by (nonlinear_arith)
        requires
            c < k * c,
            0 < c,
            count <= k,
            u > 0,
    ;
    lemma_order(exactly(c), full);
    lemma_greater(exactly(c), exactly(1));
    let held = exactly(c).greater(exactly(1));
    lemma_inside(exactly(c));
    lemma_inside(held);
    let by_combo = full / held;
    lemma_over(full, held);
    let p = place(full);
    assert((k * u) * (c * u) <= (p * u) * 1) by (nonlinear_arith)
        requires
            (k * c) * u <= p,
            u > 0,
    ;
    lemma_settle_fits(exactly(k));
    lemma_settle_order((k * u) as int, 1, p * u, (c * u) as nat);
    let r = score.calculate_combo_based_estimated_miss_count_of();
    let h = score.state.hitresults;
    if score.using_classic_slider_acc {
        let mistakes = (h.n100 + h.n50 + h.misses) as nat;
        let sum = (h.misses + score.possible_slider_breaks_of()) as nat;
        lemma_whole_place(mistakes);
        lemma_whole_place(sum);
        assert(count * u <= mistakes * u && count * u <= sum * u) by (nonlinear_arith)
            requires
                count <= mistakes,
                count <= sum,
        ;
        lemma_lesser(by_combo, exactly(mistakes));
        lemma_order(exactly(count), r);
    } else {
        let mistakes = (score.n_large_tick_miss_of() + h.misses) as nat;
        lemma_whole_place(mistakes);
        assert(count * u <= mistakes * u) by (nonlinear_arith)
            requires
                count <= mistakes,
        ;
        lemma_lesser(by_combo, exactly(mistakes));
        lemma_order(exactly(count), r);
    }
}

/// Scores on maps that ask for little speed keep all of it, however uneven.
pub proof fn law_slow_maps_forgive_uneven_taps(
    score: OsuPerformanceCalculator,
    t: Table,
    deviation: Value,
)
    requires
        number(t.speed_performance(score.attrs.speed@)),
        t.speed_performance(score.attrs.speed@).at_most(exactly(100)),
        ({
            let p = t.power(exactly(22) / deviation, near(65, 10));
            number(p) && 0 <= place(p)
        }),
    ensures
        score.calculate_speed_high_deviation_nerf_of(t, deviation) == exactly(1),
{
    lemma_one();
    lemma_whole_place(100);
    lemma_whole_place(220);
    let p = t.power(exactly(22) / deviation, near(65, 10));
    let value = t.speed_performance(score.attrs.speed@);
    lemma_order(value, exactly(100));
    lemma_factor_order(exactly(220), p, p);
    lemma_sum(exactly(100), exactly(220) * p);
    lemma_order(value, exactly(100) + exactly(220) * p);
}

/// Where the worth of a Meh stands.
proof fn lemma_meh(od: Value)
    requires
        number(od),
    ensures
        ({
            let r = n50_effective_miss_multiplier_of(od);
            let (u, q) = (one_units(), pow2(1068) as int);
            &&& finite(r) && u == 64 * q && 0 < q
            &&& place(od) <= u ==> place(r) == u
            &&& u < place(od) <= 7 * u ==> 32 * q <= place(r) <= u
            &&& 7 * u < place(od) <= 10 * u ==> 16 * q <= place(r) <= 32 * q
            &&& 10 * u < place(od) ==> 0 <= place(r) <= 16 * q
            &&& 14 * u <= place(od) ==> place(r) == 0
        }),
{
    lemma_one();
    let (u, q) = (one_units(), pow2(1068) as int);
    lemma_whole_place(3);
    lemma_whole_place(6);
    lemma_whole_place(7);
    lemma_whole_place(10);
    lemma_whole_place(4);
    lemma_whole_place(14);
    lemma_order(od, exactly(1));
    lemma_order(od, exactly(7));
    lemma_order(od, exactly(10));
    lemma_parts();
    lemma_inside(od);
    lemma_inside(exactly(10));
    let r = n50_effective_miss_multiplier_of(od);
    if u < place(od) <= 7 * u {
        lemma_step(od, 1, 6);
        let share = (od - exactly(1)) / exactly(6);
        lemma_times_share(near(5, 10), share);
        lemma_commutes(near(5, 10), share);
        lemma_settle_dyadic(32);
        lemma_taken(exactly(1), share * near(5, 10), 64, 32);
    } else if 7 * u < place(od) <= 10 * u {
        lemma_step(od, 7, 3);
        let share = (od - exactly(7)) / exactly(3);
        lemma_times_share(near(25, 100), share);
        lemma_commutes(near(25, 100), share);
        lemma_taken(near(5, 10), share * near(25, 100), 32, 16);
    } else if 10 * u < place(od) {
        lemma_beyond(od);
    }
}

/// A half, a quarter and what they are made of.
proof fn lemma_parts()
    ensures
        finite(near(5, 10)) && finite(near(25, 100)) && finite(near(333, 100)),
        place(near(5, 10)) == 32 * pow2(1068),
        place(near(25, 100)) == 16 * pow2(1068),
        0 < place(near(333, 100)) <= 4 * one_units(),
        one_units() == 64 * pow2(1068),
        0 < pow2(1068),
{
    lemma_near_place(5, 10);
    lemma_near_place(25, 100);
    lemma_near_place(333, 100);
    lemma_near_places(5, 10, 32, 64);
    lemma_near_places(32, 64, 5, 10);
    lemma_near_places(25, 100, 16, 64);
    lemma_near_places(16, 64, 25, 100);
    lemma_near_places(333, 100, 256, 64);
    lemma_near_places(1, 64, 333, 100);
    lemma_dyadic(1);
    lemma_dyadic(16);
    lemma_dyadic(32);
    lemma_dyadic(256);
}

/// How far a number is on the way from `from` to `from + over` is a share.
proof fn lemma_step(x: Value, from: nat, over: nat)
    requires
        finite(x),
        from <= 100,
        0 < over <= 100,
        from * one_units() <= place(x) <= (from + over) * one_units(),
    ensures
        ({
            let share = (x - exactly(from)) / exactly(over);
            finite(share) && 0 <= place(share) <= one_units()
        }),
{
    lemma_one();
    let u = one_units();
    lemma_whole_place(from);
    lemma_whole_place(over);
    lemma_whole_place(from + over);
    assert((from + over) * u == from * u + over * u && 0 < over * u) by (nonlinear_arith)
        requires
            0 < over,
            u > 0,
    ;
    lemma_minus(x, exactly(from));
    lemma_settle_fits(exactly(over));
    lemma_settle_fits(exactly(0));
    lemma_settle_order(place(x) - from * u, 1, (over * u) as int, 1);
    lemma_settle_order(0, 1, place(x) - from * u, 1);
    let rest = x - exactly(from);
    lemma_over(rest, exactly(over));
    lemma_over_order(rest, exactly(over), exactly(over));
    lemma_fraction(over, over);
    lemma_inside(exactly(1));
    lemma_inside(rest / exactly(over));
}

/// What is left of a number of 64ths after up to another.
proof fn lemma_taken(x: Value, y: Value, m: nat, n: nat)
    requires
        finite(x) && finite(y),
        n <= m <= 64,
        place(x) == m * pow2(1068),
        0 <= place(y) <= n * pow2(1068),
    ensures
        finite(x - y),
        (m - n) * pow2(1068) <= place(x - y) <= m * pow2(1068),
{
    lemma_one();
    let q = pow2(1068) as int;
    lemma_minus(x, y);
    lemma_settle_dyadic(m as int);
    lemma_settle_dyadic(m - n);
    assert((m - n) * q == m * q - n * q) by (nonlinear_arith);
    lemma_settle_order((m - n) * q, 1, place(x) - place(y), 1);
    lemma_settle_order(place(x) - place(y), 1, m * q, 1);
    assert(0 <= (m - n) * q) by (nonlinear_arith)
        requires
            n <= m,
            q > 0,
    ;
    lemma_inside(x);
    lemma_inside(x - y);
}

/// Above OD 10 a Meh is worth a quarter of a miss at most, and nothing from OD 14 on.
proof fn lemma_beyond(od: Value)
    requires
        number(od),
        10 * one_units() < place(od),
    ensures
        ({
            let r = n50_effective_miss_multiplier_of(od);
            finite(r) && 0 <= place(r) <= place(near(25, 100)) && (14 * one_units() <= place(od)
                ==> place(r) == 0)
        }),
{
    lemma_one();
    let u = one_units();
    lemma_parts();
    lemma_whole_place(4);
    lemma_whole_place(7);
    lemma_whole_place(10);
    lemma_whole_place(14);
    lemma_order(od, exactly(1));
    lemma_order(od, exactly(7));
    lemma_order(od, exactly(10));
    let part = near(333, 100);
    let rest = od - exactly(10);
    lemma_minus(od, exactly(10));
    lemma_settle_fits(exactly(0));
    lemma_inside(od);
    if finite(od) {
        lemma_settle_order(0, 1, place(od) - 10 * u, 1);
    }
    let share = rest / part;
    lemma_over(rest, part);
    let left = exactly(1) - share;
    lemma_left(share);
    if 14 * u <= place(od) {
        lemma_minus_order(exactly(14), od, exactly(10));
        lemma_minus(exactly(14), exactly(10));
        lemma_settle_fits(exactly(4));
        lemma_over_order(part, rest, part);
        lemma_over(part, part);
        lemma_settle_fits(exactly(1));
        assert(u * place(part) == (place(part) * u) * 1) by (nonlinear_arith);
        lemma_settle_order(u as int, 1, place(part) * u, place(part) as nat);
        assert(place(left) <= 0);
    }
    lemma_quarter_of(left);
    lemma_clamped(near(25, 100) * left, exactly(0), near(25, 100));
}

/// What is left of one after a number from zero on.
proof fn lemma_left(share: Value)
    requires
        number(share),
        0 <= place(share),
    ensures
        number(exactly(1) - share),
        one_units() <= place(share) ==> place(exactly(1) - share) <= 0,
{
    lemma_one();
    lemma_inside(share);
    if finite(share) {
        lemma_minus(exactly(1), share);
        lemma_settle_fits(exactly(0));
        if one_units() <= place(share) {
            lemma_settle_order(one_units() - place(share), 1, 0, 1);
        }
    } else {
        reveal(Value::minus);
        reveal(Value::plus);
        reveal(Value::negated);
        vstd::arithmetic::power2::lemma_pow2_pos(2098);
    }
}

/// A quarter of a number is on its side of zero.
proof fn lemma_quarter_of(x: Value)
    requires
        number(x),
    ensures
        number(near(25, 100) * x),
        place(x) <= 0 ==> place(near(25, 100) * x) <= 0,
{
    lemma_one();
    lemma_parts();
    lemma_inside(x);
    if finite(x) {
        let (p, q) = (place(near(25, 100)), place(x));
        crate::order::lemma_times(near(25, 100), x);
        lemma_settle_fits(exactly(0));
        if q <= 0 {
            assert(p * q <= 0) by (nonlinear_arith)
                requires
                    p >= 0,
                    q <= 0,
            ;
            assert((p * q) * 1 <= 0 * one_units()) by (nonlinear_arith)
                requires
                    p * q <= 0,
            ;
            lemma_settle_order(p * q, one_units(), 0, 1);
        }
    } else {
        reveal(Value::times);
        vstd::arithmetic::power2::lemma_pow2_pos(2098);
    }
}

/// The stricter the timing of a map, the less of a miss a Meh is: all of one up to OD 1,
/// from a half on up to OD 7, from a quarter on up to OD 10, and none from OD 14 on.
pub proof fn law_mehs_are_worth_less_on_strict_maps(od: Value)
    requires
        number(od),
    ensures
        ({
            let r = n50_effective_miss_multiplier_of(od);
            &&& exactly(0).at_most(r) && r.at_most(exactly(1))
            &&& od.at_most(exactly(1)) ==> r == exactly(1)
            &&& od.at_most(exactly(7)) ==> near(32, 64).at_most(r)
            &&& od.at_most(exactly(10)) ==> near(16, 64).at_most(r)
            &&& exactly(7).below(od) ==> r.at_most(near(32, 64))
            &&& exactly(10).below(od) ==> r.at_most(near(16, 64))
            &&& exactly(14).at_most(od) ==> r.at_most(exactly(0))
        }),
{
    lemma_one();
    lemma_meh(od);
    let r = n50_effective_miss_multiplier_of(od);
    lemma_whole_place(7);
    lemma_whole_place(10);
    lemma_whole_place(14);
    lemma_dyadic(16);
    lemma_dyadic(32);
    lemma_order(od, exactly(1));
    lemma_order(od, exactly(7));
    lemma_order(od, exactly(10));
    lemma_order(exactly(7), od);
    lemma_order(exactly(10), od);
    lemma_order(exactly(14), od);
    lemma_order(exactly(0), r);
    lemma_order(r, exactly(0));
    lemma_order(r, exactly(1));
    lemma_order(near(32, 64), r);
    lemma_order(near(16, 64), r);
    lemma_order(r, near(32, 64));
    lemma_order(r, near(16, 64));
}

/// What is up to one where a number is far enough.
spec fn held_of(x: Value, from: nat, over: nat) -> Value {
    ((x - exactly(from)) / exactly(over)).clamped(exactly(0), exactly(1))
}

/// Where such a share stands.
proof fn lemma_held_of(x: Value, from: nat, over: nat)
    requires
        number(x),
        from <= 1000,
        0 < over <= 1000,
    ensures
        finite(held_of(x, from, over)),
        0 <= place(held_of(x, from, over)) <= one_units(),
        place(x) <= from * one_units() ==> place(held_of(x, from, over)) == 0,
        (from + over) * one_units() <= place(x) ==> held_of(x, from, over) == exactly(1),
{
    lemma_one();
    let u = one_units();
    lemma_whole_place(from);
    lemma_whole_place(over);
    lemma_whole_place(from + over);
    assert((from + over) * u == from * u + over * u && 0 < over * u) by (nonlinear_arith)
        requires
            0 < over,
            u > 0,
    ;
    let rest = x - exactly(from);
    lemma_minus(x, exactly(from));
    lemma_over(rest, exactly(over));
    lemma_clamped(rest / exactly(over), exactly(0), exactly(1));
    lemma_settle_fits(exactly(0));
    lemma_settle_fits(exactly(over));
    if place(x) <= from * u {
        lemma_minus_order(x, exactly(from), exactly(from));
        lemma_minus(exactly(from), exactly(from));
    }
    if (from + over) * u <= place(x) {
        lemma_minus_order(exactly(from + over), x, exactly(from));
        lemma_minus(exactly(from + over), exactly(from));
        lemma_over_order(exactly(over), rest, exactly(over));
        lemma_fraction(over, over);
        lemma_is_one(held_of(x, from, over));
    }
}

/// Under Autopilot aim counts for a fifth on maps with short jumps or a low tempo, and
/// nearly in full on maps with long jumps at a high one.
pub proof fn law_autopilot_counts_hard_aim(score: OsuPerformanceCalculator)
    requires
        number(score.attrs.avg_jump_dist@),
        finite(score.attrs.median_delta_time@),
    ensures
        ({
            let r = score.autopilot_aim_factor_of();
            let (jump, time) = (score.attrs.avg_jump_dist@, score.attrs.median_delta_time@);
            &&& near(20, 100).at_most(r) && r.at_most(near(65, 64))
            &&& jump.at_most(exactly(80)) ==> r.at_most(near(20, 100))
            &&& exactly(84).at_most(time) ==> r.at_most(near(20, 100))
            &&& exactly(200).at_most(jump) && exactly(0).below(time) && time.at_most(exactly(53))
                ==> near(63, 64).at_most(r)
        }),
{
    lemma_one();
    let u = one_units();
    let (jump, time) = (score.attrs.avg_jump_dist@, score.attrs.median_delta_time@);
    lemma_whole_place(53);
    lemma_whole_place(80);
    lemma_whole_place(84);
    lemma_whole_place(180);
    lemma_whole_place(200);
    lemma_whole_place(280);
    lemma_whole_place(15_000);
    lemma_order(jump, exactly(80));
    lemma_order(exactly(84), time);
    lemma_order(exactly(200), jump);
    lemma_order(exactly(0), time);
    lemma_order(time, exactly(53));
    let bpm = if exactly(0).below(time) {
        exactly(15_000) / time
    } else {
        exactly(0)
    };
    if 0 < place(time) {
        lemma_over(exactly(15_000), time);
        let p = place(time);
        let n = ((15_000 * u) * u) as int;
        lemma_settle_fits(exactly(180));
        lemma_settle_fits(exactly(280));
        if 84 * u <= p {
            assert(n * 1 <= (180 * u) * p) by (nonlinear_arith)
                requires
                    84 * u <= p,
                    u > 0,
                    n == (15_000 * u) * u,
            ;
            lemma_settle_order(n, p as nat, (180 * u) as int, 1);
        }
        if p <= 53 * u {
            assert((280 * u) * p <= n * 1) by (nonlinear_arith)
                requires
                    p <= 53 * u,
                    u > 0,
                    n == (15_000 * u) * u,
            ;
            lemma_settle_order((280 * u) as int, 1, n, p as nat);
        }
    }
    lemma_held_of(jump, 80, 120);
    lemma_held_of(bpm, 180, 100);
    let (a, b) = (held_of(jump, 80, 120), held_of(bpm, 180, 100));
    let (fifth, rest) = (near(20, 100), near(80, 100));
    lemma_near_place(20, 100);
    lemma_near_place(80, 100);
    lemma_near_places(12, 64, 20, 100);
    lemma_near_places(20, 100, 13, 64);
    lemma_near_places(51, 64, 80, 100);
    lemma_near_places(80, 100, 52, 64);
    lemma_dyadic(12);
    lemma_dyadic(13);
    lemma_dyadic(51);
    lemma_dyadic(52);
    lemma_dyadic(63);
    lemma_dyadic(65);
    lemma_times_share(rest, a);
    lemma_times_share(rest * a, b);
    let more = rest * a * b;
    let r = score.autopilot_aim_factor_of();
    assert(r == fifth + more);
    lemma_sum(fifth, more);
    lemma_plus(fifth, more);
    lemma_settle_fits(near(65, 64));
    lemma_settle_order(place(fifth) + place(more), 1, place(near(65, 64)), 1);
    lemma_order(fifth, r);
    lemma_order(r, near(65, 64));
    lemma_settle_fits(fifth);
    if place(jump) <= 80 * u {
        lemma_nothing(a, rest);
        lemma_nothing(rest * a, b);
    }
    if 84 * u <= place(time) {
        lemma_nothing(b, rest * a);
    }
    lemma_order(r, fifth);
    if 200 * u <= place(jump) && 0 < place(time) && place(time) <= 53 * u {
        lemma_times_one(rest);
        lemma_settle_fits(near(63, 64));
        lemma_settle_order(place(near(63, 64)), 1, place(fifth) + place(more), 1);
        lemma_order(near(63, 64), r);
    }
}

/// Scores of nothing but Greats tap speed notes with full accuracy, and those without a
/// hit with none.
pub proof fn law_speed_notes_reward_greats(
    score: OsuPerformanceCalculator,
    t: Table,
    notes: nat,
)
    requires
        score.attrs.speed_note_count@ == exactly(notes),
        0 < notes <= score.state.hitresults.total() <= u32::MAX,
        !t.same(exactly(notes), exactly(0)),
        score.state.hitresults.n100 == 0,
        score.state.hitresults.n50 == 0,
    ensures
        score.state.hitresults.misses == 0 ==> score.speed_note_accuracy_of(t) == exactly(1),
        score.state.hitresults.n300 == 0 ==> score.speed_note_accuracy_of(t).at_most(exactly(0)),
{
    lemma_one();
    let u = one_units();
    let h = score.state.hitresults;
    let total = h.total();
    let n300 = h.n300 as nat;
    lemma_whole_place(total);
    lemma_whole_place(notes);
    lemma_whole_place(n300);
    lemma_whole_place(6);
    lemma_whole_place(2);
    let rest = (total - notes) as nat;
    lemma_difference(total, notes);
    lemma_whole_place(rest);
    assert(rest * u >= 0) by (nonlinear_arith)
        requires
            u > 0,
    ;
    lemma_greater_zero(exactly(rest), rest);
    let others = exactly(0).greater(exactly(rest));
    assert(others == exactly(rest)) by {
        reveal(Value::greater);
        lemma_order(exactly(0), exactly(rest));
        assert(rest > 0 ==> rest * u > 0) by (nonlinear_arith)
            requires
                u > 0,
        ;
    }
    // What is taken off Oks and Mehs leaves none.
    let a = (others - exactly(n300)).greater(exactly(0));
    lemma_minus(others, exactly(n300));
    lemma_greater(others - exactly(n300), exactly(0));
    let b = (others - exactly((h.n300 + h.n100) as nat)).greater(exactly(0));
    lemma_none_left(a);
    lemma_none_left(b);
    let oks = (exactly(0) - a).greater(exactly(0));
    let mehs = (exactly(0) - b).greater(exactly(0));
    lemma_nothing(oks, exactly(2));
    assert(notes * 6 <= 0x20_0000_0000_0000);
    lemma_exact_product(notes, 6);
    lemma_whole_place(notes * 6);
    if h.misses == 0 {
        lemma_difference(n300, rest);
        let greats = (exactly(n300) - others).greater(exactly(0));
        assert(exactly(n300) - others == exactly(notes));
        assert(greats == exactly(notes)) by {
            reveal(Value::greater);
            lemma_order(exactly(notes), exactly(0));
            assert(notes * u > 0) by (nonlinear_arith)
                requires
                    notes > 0,
                    u > 0,
            ;
        }
        let sum = greats * exactly(6) + oks * exactly(2);
        lemma_plus(exactly(notes * 6), oks * exactly(2));
        lemma_settle_fits(exactly(notes * 6));
        lemma_inside(exactly(notes * 6));
        lemma_inside(sum);
        lemma_plus(sum, mehs);
        lemma_inside(sum + mehs);
        lemma_ratio_is_one(sum + mehs, notes * 6);
    }
    if h.n300 == 0 {
        let greats = (exactly(0) - others).greater(exactly(0));
        lemma_inside(others);
        lemma_none_left(others);
        lemma_nothing(greats, exactly(6));
        let sum = greats * exactly(6) + oks * exactly(2);
        lemma_plus(greats * exactly(6), oks * exactly(2));
        lemma_settle_fits(exactly(0));
        lemma_inside(exactly(0));
        lemma_inside(sum);
        lemma_plus(sum, mehs);
        assert((notes * 6) * u > 0) by (nonlinear_arith)
            requires
                notes > 0,
                u > 0,
        ;
        lemma_over(sum + mehs, exactly(notes * 6));
        lemma_order(score.speed_note_accuracy_of(t), exactly(0));
    }
}

/// Differences of natural numbers are exact.
proof fn lemma_difference(a: nat, b: nat)
    requires
        b <= a <= 0x20_0000_0000_0000,
    ensures
        exactly(a) - exactly(b) == exactly((a - b) as nat),
{
    lemma_one();
    crate::order::lemma_exactly(a);
    crate::order::lemma_exactly(b);
    crate::order::lemma_exactly((a - b) as nat);
    let u = one_units();
    assert((a - b) * u == a * u - b * u && a * u >= b * u) by (nonlinear_arith)
        requires
            b <= a,
    ;
    crate::order::lemma_fits((a - b) as nat, 1074);
    reveal(Value::minus);
    reveal(Value::plus);
    reveal(Value::negated);
}

/// The greater of zero and a natural number stands where that number does.
proof fn lemma_greater_zero(x: Value, n: nat)
    requires
        n <= 0x20_0000_0000_0000,
        x == exactly(n),
    ensures
        number(exactly(0).greater(x)),
        place(exactly(0).greater(x)) == n * one_units(),
{
    lemma_one();
    lemma_whole_place(n);
    assert(n * one_units() >= 0) by (nonlinear_arith);
    lemma_greater(exactly(0), x);
}

/// Nothing is left of nothing.
proof fn lemma_none_left(x: Value)
    requires
        number(x),
        0 <= place(x),
    ensures
        finite((exactly(0) - x).greater(exactly(0))),
        place((exactly(0) - x).greater(exactly(0))) == 0,
{
    lemma_one();
    lemma_inside(x);
    let left = exactly(0) - x;
    if finite(x) {
        lemma_minus(exactly(0), x);
        lemma_settle_fits(exactly(0));
        lemma_settle_order(-place(x), 1, 0, 1);
    } else {
        reveal(Value::minus);
        reveal(Value::plus);
        reveal(Value::negated);
        vstd::arithmetic::power2::lemma_pow2_pos(2098);
    }
    lemma_greater(left, exactly(0));
    lemma_inside(exactly(0));
    lemma_inside(left.greater(exactly(0)));
}

/// A natural number over itself is one.
proof fn lemma_ratio_is_one(x: Value, n: nat)
    requires
        0 < n <= 0x20_0000_0000_0000,
        finite(x),
        place(x) == n * one_units(),
    ensures
        x / exactly(n) == exactly(1),
{
    lemma_one();
    lemma_whole_place(n);
    let u = one_units();
    assert(n * u > 0) by (nonlinear_arith)
        requires
            n > 0,
            u > 0,
    ;
    lemma_over(x, exactly(n));
    lemma_settle_fits(exactly(1));
    let p = place(x);
    assert((p * u) * 1 == u * p) by (nonlinear_arith);
    lemma_settle_order(p * u, p as nat, u as int, 1);
    lemma_settle_order(u as int, 1, p * u, p as nat);
    lemma_inside(exactly(1));
    lemma_inside(x / exactly(n));
    lemma_is_one(x / exactly(n));
}

/// Half a break of as many as a score has Oks is a positive number.
proof fn lemma_half_break(n: nat)
    requires
        0 < n <= u32::MAX,
    ensures
        finite(near(5, 10) / exactly(n)),
        0 < place(near(5, 10) / exactly(n)),
{
    lemma_one();
    lemma_parts();
    lemma_whole_place(n);
    let (u, q) = (one_units(), pow2(1068) as int);
    assert(n * u >= u) by (nonlinear_arith)
        requires
            n >= 1,
    ;
    crate::order::lemma_over_large(near(5, 10), exactly(n));
    lemma_over(near(5, 10), exactly(n));
    vstd::arithmetic::power2::lemma_pow2_strictly_increases(32, 1068);
    vstd::arithmetic::power2::lemma2_to64();
    crate::order::lemma_fits(1, 0);
    assert(1 * (n * u) <= ((32 * q) * u) * 1) by (nonlinear_arith)
        requires
            n <= 32 * q,
            u > 0,
    ;
    lemma_settle_order(1, 1, (32 * q) * u, (n * u) as nat);
    vstd::arithmetic::power2::lemma_pow2_pos(2098);
}

/// Classic scores are held to have broken sliders, the more the likelier that is: by the
/// misses that sliders share, up to the Oks, weighed by what the combo tells.
pub proof fn law_classic_scores_break_sliders(
    score: OsuPerformanceCalculator,
    t: Table,
    factor: Value,
    misses: Value,
)
    requires
        score.state.hitresults.n100 > 0,
        number(misses * factor),
        exactly(0).at_most(misses * factor),
        t.smoothstep(misses, exactly(1), exactly(2)) == exactly(1),
        ({
            let told = t.logistic(
                exactly(1) - exactly(score.state.max_combo as nat) / exactly(
                    score.attrs.max_combo as nat,
                ),
                near(33, 100),
                exactly(15),
                None,
            );
            finite(told) && exactly(0).below(told)
        }),
    ensures
        ({
            let n100 = exactly(score.state.hitresults.n100 as nat);
            let told = t.logistic(
                exactly(1) - exactly(score.state.max_combo as nat) / exactly(
                    score.attrs.max_combo as nat,
                ),
                near(33, 100),
                exactly(15),
                None,
            );
            let r = score.calculate_estimated_slider_breaks_of(t, factor, misses);
            let least = (misses * factor).lesser(n100) * (near(5, 10) / n100) * told;
            &&& !score.using_classic_slider_acc ==> r == exactly(0)
            &&& score.using_classic_slider_acc && !(r is Nan) ==> least.at_most(r)
        }),
{
    lemma_one();
    let n = score.state.hitresults.n100 as nat;
    let n100 = exactly(n);
    let told = t.logistic(
        exactly(1) - exactly(score.state.max_combo as nat) / exactly(score.attrs.max_combo as nat),
        near(33, 100),
        exactly(15),
        None,
    );
    lemma_whole_place(n);
    assert(n * one_units() > 0) by (nonlinear_arith)
        requires
            n > 0,
            one_units() > 0,
    ;
    lemma_order(exactly(0), misses * factor);
    lemma_order(exactly(0), told);
    lemma_lesser(misses * factor, n100);
    let breaks = (misses * factor).lesser(n100);
    lemma_inside(n100);
    lemma_inside(breaks);
    lemma_times_one(breaks);
    lemma_minus(n100, breaks);
    lemma_settle_fits(exactly(0));
    lemma_settle_order(0, 1, place(n100) - place(breaks), 1);
    let rest = n100 - breaks;
    lemma_parts();
    lemma_sum(rest, near(5, 10));
    let more = rest + near(5, 10);
    lemma_over_order(near(5, 10), more, n100);
    lemma_over(more, n100);
    lemma_half_break(n);
    let (ok, half) = (more / n100, near(5, 10) / n100);
    crate::signs::lemma_multiply_from(breaks, breaks, ok, half);
    crate::signs::lemma_multiply_same(breaks * ok, breaks * half, told);
    let r = score.calculate_estimated_slider_breaks_of(t, factor, misses);
    if score.using_classic_slider_acc && !(r is Nan) {
        lemma_order(breaks * half * told, r);
    }
}

/// The factor on the whole score: all of it under Relax, 92% without, and no more than
/// that with Spun Out.
pub proof fn law_scores_are_scaled_alike(
    score: OsuPerformanceCalculator,
    unspun: OsuPerformanceCalculator,
    t: Table,
)
    requires
        unspun.mods.rx == score.mods.rx,
        !unspun.mods.so,
        ({
            let p = t.power(
                exactly(score.attrs.n_spinners as nat) / score.total_hits_of(),
                near(85, 100),
            );
            finite(p) && exactly(0).at_most(p) && p.at_most(exactly(1))
        }),
    ensures
        near(92, 100).at_most(unspun.base_factor_of(t)),
        unspun.base_factor_of(t).at_most(exactly(1)),
        unspun.mods.rx ==> exactly(1).at_most(unspun.base_factor_of(t)),
        !unspun.mods.rx ==> unspun.base_factor_of(t).at_most(near(92, 100)),
        exactly(0).at_most(score.base_factor_of(t)),
        score.base_factor_of(t).at_most(unspun.base_factor_of(t)),
{
    lemma_one();
    lemma_near_place(92, 100);
    lemma_near_places(92, 100, 1, 1);
    let base = unspun.base_factor_of(t);
    lemma_order(near(92, 100), base);
    lemma_order(base, exactly(1));
    lemma_order(exactly(1), base);
    lemma_order(base, near(92, 100));
    lemma_order(base, base);
    lemma_order(exactly(0), base);
    let p = t.power(
        exactly(score.attrs.n_spinners as nat) / score.total_hits_of(),
        near(85, 100),
    );
    lemma_order(exactly(0), p);
    lemma_order(p, exactly(1));
    crate::order::lemma_left_of_one(p);
    lemma_times_share(base, exactly(1) - p);
    lemma_order(exactly(0), base * (exactly(1) - p));
    lemma_order(base * (exactly(1) - p), base);
}

} // verus!
