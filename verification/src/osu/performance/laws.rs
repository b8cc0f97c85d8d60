//! What holds of the factors on a score, whatever the score.
use vstd::arithmetic::power2::{
    lemma2_to64_rest, lemma_pow2_adds, lemma_pow2_pos, lemma_pow2_unfold, pow2,
};
use vstd::prelude::*;

use crate::order::{
    finite, lemma_clamped, lemma_dyadic, lemma_exact_product, lemma_fraction, lemma_greater,
    lemma_held, lemma_inside, lemma_is_one, lemma_left_of_one, lemma_lesser, lemma_minus,
    lemma_minus_order, lemma_near_place, lemma_near_places, lemma_near_units, lemma_nothing,
    lemma_one, lemma_order, lemma_over, lemma_over_order, lemma_plus, lemma_plus_order,
    lemma_proper, lemma_settle_fits, lemma_settle_order, lemma_share_times, lemma_sum,
    lemma_sum_order, lemma_times, lemma_times_one, lemma_times_order, lemma_times_share,
    lemma_whole_place, number, place, proper, settle,
};
use crate::rounding::{lemma_half_even_scale, lemma_round_at};
use crate::osu::performance::calculator::{OsuPerformanceCalculator, Worth};
use crate::powers::rises;
use crate::query::{GameMods, Table};
use crate::signs::{lemma_commutes, lemma_factor_order};
use crate::value::{exactly, near, one_units, Value};

verus! {

/// Where the share of a combo stands.
proof fn lemma_combo_share(combo: u32, full: u32)
    requires
        full > 0,
    ensures
        ({
            let share = (exactly(combo as nat) / exactly(full as nat)).clamped(
                exactly(0),
                exactly(1),
            );
            finite(share) && 0 <= place(share) <= one_units() && (combo >= full ==> place(share)
                == one_units())
        }),
{
    lemma_one();
    lemma_fraction(combo as nat, full as nat);
    lemma_clamped(exactly(combo as nat) / exactly(full as nat), exactly(0), exactly(1));
    if combo >= full {
        lemma_whole_place(combo as nat);
        lemma_whole_place(full as nat);
        lemma_fraction(full as nat, full as nat);
        let u = one_units();
        assert(full * u <= combo * u && full * u > 0) by (nonlinear_arith)
            requires
                0 < full <= combo,
                u > 0,
        ;
        lemma_over_order(
            exactly(full as nat),
            exactly(combo as nat),
            exactly(full as nat),
        );
    }
}

/// Three quarters and one quarter are exact.
proof fn lemma_quarters()
    ensures
        finite(near(75, 100)),
        finite(near(25, 100)),
        0 < place(near(25, 100)) < place(near(75, 100)) < one_units(),
        place(near(75, 100)) + place(near(25, 100)) == one_units(),
{
    lemma2_to64_rest();
    lemma_near_place(75, 100);
    lemma_near_place(25, 100);
    lemma_near_units(75, 100, 53, 0x18_0000_0000_0000);
    lemma_near_units(25, 100, 54, 0x10_0000_0000_0000);
    lemma_pow2_pos(1020);
    lemma_pow2_unfold(1021);
    lemma_pow2_adds(54, 1020);
    let c = pow2(1020);
    assert(pow2(1021) == 2 * c);
    assert(0x18_0000_0000_0000 * (2 * c) + 0x10_0000_0000_0000 * c == 0x40_0000_0000_0000 * c)
        by (nonlinear_arith);
    assert(0x10_0000_0000_0000 * c > 0) by (nonlinear_arith)
        requires
            c > 0,
    ;
    assert(0x10_0000_0000_0000 * c < 0x18_0000_0000_0000 * (2 * c)) by (nonlinear_arith)
        requires
            c > 0,
    ;
}

/// Without misses, and on a map without a combo, where the misses were takes
/// nothing away.
pub proof fn law_no_misses_bypass_combo_scaling(
    t: Table,
    map_max_combo: u32,
    player_max_combo: u32,
    misses: Value,
)
    requires
        misses.at_most(exactly(0)) || map_max_combo == 0,
    ensures
        OsuPerformanceCalculator::miss_combo_multiplier_of(
            t,
            map_max_combo,
            player_max_combo,
            misses,
        ) == exactly(1),
{
}

/// A full combo is left untouched, where one to the power of 0.7 is one.
pub proof fn law_full_combos_are_left_untouched(
    t: Table,
    map_max_combo: u32,
    player_max_combo: u32,
    misses: Value,
)
    requires
        t.power(exactly(1), near(7, 10)) == exactly(1),
        player_max_combo >= map_max_combo,
    ensures
        OsuPerformanceCalculator::miss_combo_multiplier_of(
            t,
            map_max_combo,
            player_max_combo,
            misses,
        ) == exactly(1),
{
    if !misses.at_most(exactly(0)) && map_max_combo > 0 {
        lemma_one();
        let share = (exactly(player_max_combo as nat) / exactly(map_max_combo as nat)).clamped(
            exactly(0),
            exactly(1),
        );
        lemma_combo_share(player_max_combo, map_max_combo);
        lemma_same_place(share, exactly(1));
        lemma_quarters();
        lemma_near_places(25, 100, 1, 1);
        lemma_times_one(near(25, 100));
        lemma_plus(near(75, 100), near(25, 100) * exactly(1));
        lemma_settle_fits(exactly(1));
        let sum = near(75, 100) + near(25, 100) * exactly(1);
        lemma_inside(exactly(1));
        lemma_inside(sum);
        lemma_clamped(sum, near(75, 100), exactly(1));
        lemma_same_place(sum.clamped(near(75, 100), exactly(1)), exactly(1));
    }
}

/// 85% and 15% add up to all.
proof fn lemma_tax()
    ensures
        finite(near(85, 100)),
        finite(near(15, 100)),
        place(near(15, 100)) > 0,
        settle(place(near(85, 100)) + place(near(15, 100)), 1) == one_units(),
{
    lemma2_to64_rest();
    let c = pow2(1019);
    lemma_pow2_pos(1019);
    lemma_pow2_unfold(1020);
    lemma_pow2_unfold(1021);
    lemma_pow2_adds(55, 1019);
    lemma_near_place(85, 100);
    lemma_near_place(15, 100);
    lemma_near_units(85, 100, 53, 7_656_119_366_529_843);
    lemma_near_units(15, 100, 55, 5_404_319_552_844_595);
    let n = (36_028_797_018_963_967 * c) as nat;
    assert(7_656_119_366_529_843 * (4 * c) + 5_404_319_552_844_595 * c == 36_028_797_018_963_967
        * c)
        by (nonlinear_arith);
    assert(5_404_319_552_844_595 * c > 0) by (nonlinear_arith)
        requires
            c > 0,
    ;
    assert(n < 1 * 0x20_0000_0000_0000 * (4 * c) && n >= 1 * 0x10_0000_0000_0000 * (4 * c))
        by (nonlinear_arith)
        requires
            n == 36_028_797_018_963_967 * c,
            c > 0,
    ;
    lemma_round_at(n, 1, 1021);
    lemma_half_even_scale(36_028_797_018_963_967, 4, c);
    assert((4 * c) * 0x20_0000_0000_0000 == 0x80_0000_0000_0000 * c) by (nonlinear_arith);
    lemma_one();
    lemma_inside(exactly(1));
}

/// The tax on a combo passes full combos through untouched, where one to the power
/// of 0.35 is one.
pub proof fn law_full_combos_are_not_taxed(calculator: OsuPerformanceCalculator, t: Table)
    requires
        t.power(exactly(1), near(35, 100)) == exactly(1),
        calculator.state.max_combo >= calculator.attrs.max_combo,
    ensures
        calculator.combo_ratio_tax_of(t) == exactly(1),
{
    if calculator.attrs.max_combo > 0 {
        lemma_one();
        let share = (exactly(calculator.state.max_combo as nat) / exactly(
            calculator.attrs.max_combo as nat,
        )).clamped(exactly(0), exactly(1));
        lemma_combo_share(calculator.state.max_combo, calculator.attrs.max_combo);
        lemma_same_place(share, exactly(1));
        lemma_tax();
        lemma_times_one(near(15, 100));
        lemma_plus(near(85, 100), near(15, 100) * exactly(1));
        let sum = near(85, 100) + near(15, 100) * exactly(1);
        lemma_lesser(sum, exactly(1));
        lemma_inside(exactly(1));
        lemma_inside(sum.lesser(exactly(1)));
        lemma_same_place(sum.lesser(exactly(1)), exactly(1));
    }
}

/// Numbers other than zero at the same place are the same.
proof fn lemma_same_place(x: Value, y: Value)
    requires
        finite(x),
        finite(y),
        place(x) == place(y),
        place(x) > 0,
    ensures
        x == y,
{
}

/// Where the misses were takes no more than a quarter of a score.
pub proof fn law_combo_scaling_is_bounded(
    t: Table,
    map_max_combo: u32,
    player_max_combo: u32,
    misses: Value,
)
    ensures
        ({
            let r = OsuPerformanceCalculator::miss_combo_multiplier_of(
                t,
                map_max_combo,
                player_max_combo,
                misses,
            );
            !(r is Nan) ==> near(75, 100).at_most(r) && r.at_most(exactly(1))
        }),
{
    lemma_one();
    lemma_quarters();
    lemma_order(near(75, 100), exactly(1));
    lemma_order(exactly(1), exactly(1));
    let share = (exactly(player_max_combo as nat) / exactly(map_max_combo as nat)).clamped(
        exactly(0),
        exactly(1),
    );
    let power = t.power(share, near(7, 10));
    lemma_proper(near(25, 100), power);
    lemma_proper(near(75, 100), near(25, 100) * power);
    lemma_held(near(75, 100) + near(25, 100) * power, near(75, 100), exactly(1));
}

/// The share of the combo of a map.
pub open spec fn combo_share_of(map_max_combo: u32, player_max_combo: u32) -> Value {
    (exactly(player_max_combo as nat) / exactly(map_max_combo as nat)).clamped(
        exactly(0),
        exactly(1),
    )
}

/// An earlier miss, which leaves a shorter combo, costs no less.
pub proof fn law_earlier_misses_are_harsher(
    t: Table,
    map_max_combo: u32,
    early_combo: u32,
    late_combo: u32,
    misses: Value,
)
    requires
        rises(
            t,
            near(7, 10),
            combo_share_of(map_max_combo, early_combo),
            combo_share_of(map_max_combo, late_combo),
        ),
        early_combo <= late_combo,
    ensures
        OsuPerformanceCalculator::miss_combo_multiplier_of(
            t,
            map_max_combo,
            early_combo,
            misses,
        ).at_most(
            OsuPerformanceCalculator::miss_combo_multiplier_of(
                t,
                map_max_combo,
                late_combo,
                misses,
            ),
        ),
{
    lemma_one();
    lemma_order(exactly(1), exactly(1));
    if !misses.at_most(exactly(0)) && map_max_combo > 0 {
        let full = exactly(map_max_combo as nat);
        let (a, b) = (exactly(early_combo as nat), exactly(late_combo as nat));
        lemma_whole_place(early_combo as nat);
        lemma_whole_place(late_combo as nat);
        lemma_whole_place(map_max_combo as nat);
        let u = one_units();
        assert(early_combo * u <= late_combo * u && map_max_combo * u > 0) by (nonlinear_arith)
            requires
                early_combo <= late_combo,
                map_max_combo > 0,
                u > 0,
        ;
        lemma_over(a, full);
        lemma_over(b, full);
        lemma_over_order(a, b, full);
        lemma_clamped(a / full, exactly(0), exactly(1));
        lemma_clamped(b / full, exactly(0), exactly(1));
        let x = (a / full).clamped(exactly(0), exactly(1));
        let y = (b / full).clamped(exactly(0), exactly(1));
        let (v, w) = (t.power(x, near(7, 10)), t.power(y, near(7, 10)));
        lemma_quarters();
        lemma_times_share(near(25, 100), v);
        lemma_times_share(near(25, 100), w);
        lemma_times_order(near(25, 100), v, near(25, 100), w);
        lemma_plus(near(75, 100), near(25, 100) * v);
        lemma_plus(near(75, 100), near(25, 100) * w);
        lemma_plus_order(
            near(75, 100),
            near(25, 100) * v,
            near(75, 100),
            near(25, 100) * w,
        );
        let (m, n) = (near(75, 100) + near(25, 100) * v, near(75, 100) + near(25, 100) * w);
        lemma_clamped(m, near(75, 100), exactly(1));
        lemma_clamped(n, near(75, 100), exactly(1));
        lemma_order(
            m.clamped(near(75, 100), exactly(1)),
            n.clamped(near(75, 100), exactly(1)),
        );
    }
}

/// Without misses, and on a map with an OD from 7 on, lenient timing takes nothing
/// away.
pub proof fn law_strict_timing_and_no_misses_keep_all(t: Table, misses: Value, od: Value)
    requires
        misses.at_most(exactly(0)) || exactly(7).at_most(od),
    ensures
        OsuPerformanceCalculator::low_od_miss_multiplier_of(t, misses, od) == exactly(1),
{
}

/// Lenient timing leaves at least 30%.
pub proof fn law_lenient_timing_is_bounded(t: Table, misses: Value, od: Value)
    ensures
        near(30, 100).at_most(OsuPerformanceCalculator::low_od_miss_multiplier_of(t, misses, od)),
{
    lemma_one();
    lemma_near_place(30, 100);
    lemma_near_places(30, 100, 1, 1);
    lemma_order(near(30, 100), exactly(1));
    lemma_order(near(30, 100), near(30, 100));
    reveal(Value::greater);
    reveal(Value::below);
    reveal(Value::equals);
}

/// The more lenient the timing of a map, the more its misses cost.
pub proof fn law_low_od_misses_are_harsher(t: Table, misses: Value, low_od: Value, high_od: Value)
    requires
        rises(
            t,
            misses,
            left_by(low_od),
            left_by(
                if exactly(7).at_most(high_od) {
                    low_od
                } else {
                    high_od
                },
            ),
        ),
        finite(low_od),
        finite(high_od),
        low_od.at_most(high_od),
    ensures
        OsuPerformanceCalculator::low_od_miss_multiplier_of(t, misses, low_od).at_most(
            OsuPerformanceCalculator::low_od_miss_multiplier_of(t, misses, high_od),
        ),
{
    lemma_one();
    lemma_whole_place(7);
    lemma_order(exactly(1), exactly(1));
    lemma_order(low_od, high_od);
    lemma_order(exactly(7), low_od);
    lemma_order(exactly(7), high_od);
    if !misses.at_most(exactly(0)) && !exactly(7).at_most(low_od) {
        lemma_severity(low_od);
        lemma_severity(high_od);
        let (a, b) = (left_by(low_od), left_by(high_od));
        lemma_minus(exactly(7), low_od);
        lemma_minus(exactly(7), high_od);
        lemma_settle_order(
            place(exactly(7)) - place(high_od),
            1,
            place(exactly(7)) - place(low_od),
            1,
        );
        lemma_over_order(exactly(7) - high_od, exactly(7) - low_od, exactly(7));
        lemma_over(exactly(7) - high_od, exactly(7));
        lemma_over(exactly(7) - low_od, exactly(7));
        lemma_clamped((exactly(7) - high_od) / exactly(7), exactly(0), exactly(1));
        lemma_clamped((exactly(7) - low_od) / exactly(7), exactly(0), exactly(1));
        lemma_near_place(14, 100);
        lemma_near_places(14, 100, 1, 1);
        lemma_times_order(
            near(14, 100),
            severity_of(high_od),
            near(14, 100),
            severity_of(low_od),
        );
        lemma_left_of_one(near(14, 100) * severity_of(low_od));
        lemma_left_of_one(near(14, 100) * severity_of(high_od));
        lemma_settle_order(
            one_units() - place(near(14, 100) * severity_of(low_od)),
            1,
            one_units() - place(near(14, 100) * severity_of(high_od)),
            1,
        );
        lemma_near_place(30, 100);
        lemma_near_places(30, 100, 1, 1);
        let (v, w) = (t.power(a, misses), t.power(b, misses));
        lemma_greater(v, near(30, 100));
        if !exactly(7).at_most(high_od) {
            lemma_greater(w, near(30, 100));
            lemma_order(v.greater(near(30, 100)), w.greater(near(30, 100)));
        }
        lemma_order(v.greater(near(30, 100)), exactly(1));
    }
}

/// How lenient the timing of a map is, from 0 to 1.
pub open spec fn severity_of(od: Value) -> Value {
    ((exactly(7) - od) / exactly(7)).clamped(exactly(0), exactly(1))
}

/// What one miss leaves on such a map.
pub open spec fn left_by(od: Value) -> Value {
    exactly(1) - near(14, 100) * severity_of(od)
}

/// Both are shares.
proof fn lemma_severity(od: Value)
    requires
        finite(od),
    ensures
        finite(severity_of(od)),
        0 <= place(severity_of(od)) <= one_units(),
        finite(near(14, 100) * severity_of(od)),
        0 <= place(near(14, 100) * severity_of(od)) <= one_units(),
        finite(left_by(od)),
        0 <= place(left_by(od)) <= one_units(),
{
    lemma_one();
    lemma_whole_place(7);
    lemma_minus(exactly(7), od);
    lemma_over(exactly(7) - od, exactly(7));
    lemma_clamped((exactly(7) - od) / exactly(7), exactly(0), exactly(1));
    lemma_near_place(14, 100);
    lemma_near_places(14, 100, 1, 1);
    lemma_times_share(near(14, 100), severity_of(od));
    lemma_left_of_one(near(14, 100) * severity_of(od));
}

/// Unstable timing takes no more than 12% of a score.
pub proof fn law_consistency_is_bounded(strictness: Value, speed_deviation: Option<Value>)
    ensures
        ({
            let r = OsuPerformanceCalculator::calculate_consistency_multiplier_of(
                strictness,
                speed_deviation,
            );
            !(r is Nan) ==> near(88, 100).at_most(r) && r.at_most(exactly(1))
        }),
{
    lemma_one();
    lemma_near_place(88, 100);
    lemma_near_places(88, 100, 1, 1);
    lemma_order(near(88, 100), exactly(1));
    lemma_order(exactly(1), exactly(1));
    match speed_deviation {
        Some(speed_deviation) => {
            let excess_ur = (speed_deviation * exactly(10) - exactly(10)).greater(exactly(0));
            let ur_factor = (excess_ur / exactly(40)).clamped(exactly(0), exactly(1));
            let taken = near(12, 100) * strictness * ur_factor;
            lemma_proper(near(12, 100) * strictness, ur_factor);
            lemma_proper_minus(exactly(1), taken);
            lemma_held(exactly(1) - taken, near(88, 100), exactly(1));
        },
        None => {},
    }
}

/// A difference of what binary64 has, binary64 has.
proof fn lemma_proper_minus(x: Value, y: Value)
    requires
        proper(x),
        proper(y),
    ensures
        proper(x - y),
{
    reveal(Value::minus);
    reveal(Value::negated);
    lemma_proper(x, y.negated());
}

/// Timing without a deviation, or with one of up to a millisecond, costs nothing.
pub proof fn law_even_timing_keeps_all(strictness: Value, speed_deviation: Option<Value>)
    requires
        finite(strictness),
        0 <= place(strictness) <= one_units(),
        match speed_deviation {
            Some(deviation) => finite(deviation) && exactly(0).at_most(deviation)
                && deviation.at_most(exactly(1)),
            None => true,
        },
    ensures
        OsuPerformanceCalculator::calculate_consistency_multiplier_of(strictness, speed_deviation)
            == exactly(1),
{
    match speed_deviation {
        Some(deviation) => {
            lemma_one();
            lemma_whole_place(10);
            lemma_whole_place(40);
            lemma_order(exactly(0), deviation);
            lemma_order(deviation, exactly(1));
            lemma_share_times(deviation, exactly(10));
            let ten = deviation * exactly(10);
            lemma_minus(ten, exactly(10));
            lemma_settle_fits(exactly(0));
            lemma_settle_order(place(ten) - place(exactly(10)), 1, 0, 1);
            lemma_greater(ten - exactly(10), exactly(0));
            let excess = (ten - exactly(10)).greater(exactly(0));
            lemma_inside(exactly(0));
            lemma_inside(excess);
            lemma_over(excess, exactly(40));
            lemma_clamped(excess / exactly(40), exactly(0), exactly(1));
            let factor = (excess / exactly(40)).clamped(exactly(0), exactly(1));
            lemma_near_place(12, 100);
            lemma_near_places(12, 100, 1, 1);
            lemma_times_share(near(12, 100), strictness);
            let s = near(12, 100) * strictness;
            lemma_times_share(s, factor);
            lemma_share_times(s, factor);
            lemma_left_of_one(s * factor);
            lemma_settle_fits(exactly(1));
            lemma_near_place(88, 100);
            lemma_near_places(88, 100, 1, 1);
            let r = exactly(1) - s * factor;
            lemma_clamped(r, near(88, 100), exactly(1));
            lemma_same_place(r.clamped(near(88, 100), exactly(1)), exactly(1));
        },
        None => {},
    }
}

/// The bonus for length before accuracy counts is finite and at least its base.
proof fn lemma_raw_bonus(t: Table, total_hits: nat)
    requires
        0 < total_hits <= u32::MAX,
        logs_hits(t, total_hits),
    ensures
        finite(raw_bonus_of(t, exactly(total_hits)) - near(95, 100)),
        0 <= place(raw_bonus_of(t, exactly(total_hits)) - near(95, 100)) <= 12 * one_units(),
{
    lemma_one();
    let u = one_units();
    let hits = exactly(total_hits);
    let log = t.log10(hits / exactly(2000));
    let base = near(95, 100);
    lemma_whole_place(total_hits);
    lemma_whole_place(2000);
    lemma_whole_place(2);
    lemma_whole_place(10);
    lemma_whole_place(12);
    lemma_settle_fits(exactly(0));
    lemma_settle_fits(exactly(2));
    lemma_settle_fits(exactly(12));
    lemma_inside(exactly(1));
    lemma_inside(exactly(2));
    lemma_inside(exactly(12));
    lemma_over(hits, exactly(2000));
    assert(total_hits * u >= 0) by (nonlinear_arith);
    lemma_lesser(hits / exactly(2000), exactly(1));
    let share = (hits / exactly(2000)).lesser(exactly(1));
    lemma_inside(share);
    lemma_near_place(4, 10);
    lemma_near_places(4, 10, 1, 1);
    lemma_near_place(5, 10);
    lemma_near_places(5, 10, 1, 1);
    lemma_near_place(95, 100);
    lemma_near_places(95, 100, 1, 1);
    lemma_times_share(near(4, 10), share);
    let part = near(4, 10) * share;
    let some = base + part;
    lemma_plus(base, part);
    lemma_settle_order(place(base) + place(part), 1, 2 * u as int, 1);
    lemma_settle_fits(base);
    lemma_settle_order(place(base), 1, place(base) + place(part), 1);
    lemma_inside(some);
    let long = if exactly(2000).below(hits) {
        exactly(1)
    } else {
        exactly(0)
    };
    assert(2000 * u < total_hits * u <==> 2000 < total_hits) by (nonlinear_arith)
        requires
            u > 0,
    ;
    lemma_order(exactly(2000), hits);
    if total_hits > 2000 {
        lemma_order(exactly(0), log);
        lemma_order(log, exactly(10));
        lemma_share_times(long, log);
    } else {
        lemma_times(long, log);
        assert(0 * place(log) == 0);
        lemma_settle_order(0, u, 0, 1);
        lemma_settle_order(0, 1, 0, u);
        lemma_inside(exactly(0));
        lemma_inside(long * log);
    }
    lemma_times_share(long * log, near(5, 10));
    let rest = long * log * near(5, 10);
    lemma_plus(some, rest);
    lemma_settle_order(place(some) + place(rest), 1, 12 * u as int, 1);
    lemma_settle_fits(some);
    lemma_settle_order(place(some), 1, place(some) + place(rest), 1);
    let raw = some + rest;
    lemma_inside(raw);
    lemma_minus(raw, base);
    lemma_settle_order(0, 1, place(raw) - place(base), 1);
    lemma_settle_order(place(raw) - place(base), 1, 12 * u as int, 1);
    lemma_inside(raw - base);
}

/// The bonus for length before accuracy counts.
spec fn raw_bonus_of(t: Table, total_hits: Value) -> Value {
    let long = if exactly(2000).below(total_hits) {
        exactly(1)
    } else {
        exactly(0)
    };
    near(95, 100) + near(4, 10) * (total_hits / exactly(2000)).lesser(exactly(1)) + long * t.log10(
        total_hits / exactly(2000),
    ) * near(5, 10)
}

/// Whether the logarithm of a number of objects over 2000 is finite, and from 0 to
/// 10 where they exceed 2000, as it is for every number of 32 bits but zero.
pub open spec fn logs_hits(t: Table, total_hits: nat) -> bool {
    let log = t.log10(exactly(total_hits) / exactly(2000));
    finite(log) && (total_hits > 2000 ==> exactly(0).at_most(log) && log.at_most(exactly(10)))
}

/// The bonus for length takes no more than a twentieth away, however short the map and
/// poor the accuracy.
pub proof fn law_length_bonus_has_a_floor(t: Table, total_hits: nat, accuracy: Value)
    requires
        rises(
            t,
            exactly(2),
            accuracy.clamped(exactly(0), exactly(1)),
            accuracy.clamped(exactly(0), exactly(1)),
        ),
        0 < total_hits <= u32::MAX,
        logs_hits(t, total_hits),
        number(accuracy),
    ensures
        finite(OsuPerformanceCalculator::length_bonus_of(t, exactly(total_hits), accuracy)),
        near(95, 100).at_most(
            OsuPerformanceCalculator::length_bonus_of(t, exactly(total_hits), accuracy),
        ),
{
    lemma_one();
    lemma_raw_bonus(t, total_hits);
    lemma_clamped(accuracy, exactly(0), exactly(1));
    let v = t.power(accuracy.clamped(exactly(0), exactly(1)), exactly(2));
    let base = near(95, 100);
    let more = raw_bonus_of(t, exactly(total_hits)) - base;
    let u = one_units();
    lemma_near_place(95, 100);
    lemma_near_places(95, 100, 1, 1);
    lemma_times_share(more, v);
    lemma_plus(base, more * v);
    lemma_settle_fits(base);
    lemma_settle_order(place(base), 1, place(base) + place(more * v), 1);
    lemma_whole_place(13);
    lemma_settle_fits(exactly(13));
    lemma_settle_order(place(base) + place(more * v), 1, 13 * u as int, 1);
    lemma_inside(exactly(13));
    lemma_inside(base + more * v);
    lemma_order(base, base + more * v);
}

/// The bonus for length rewards accuracy: with a better one it is no smaller.
pub proof fn law_length_bonus_rewards_accuracy(
    t: Table,
    total_hits: nat,
    worse: Value,
    better: Value,
)
    requires
        rises(
            t,
            exactly(2),
            worse.clamped(exactly(0), exactly(1)),
            better.clamped(exactly(0), exactly(1)),
        ),
        0 < total_hits <= u32::MAX,
        logs_hits(t, total_hits),
        number(worse),
        number(better),
        worse.at_most(better),
    ensures
        OsuPerformanceCalculator::length_bonus_of(t, exactly(total_hits), worse).at_most(
            OsuPerformanceCalculator::length_bonus_of(t, exactly(total_hits), better),
        ),
{
    lemma_one();
    lemma_raw_bonus(t, total_hits);
    lemma_order(worse, better);
    lemma_clamped(worse, exactly(0), exactly(1));
    lemma_clamped(better, exactly(0), exactly(1));
    let x = worse.clamped(exactly(0), exactly(1));
    let y = better.clamped(exactly(0), exactly(1));
    let (v, w) = (t.power(x, exactly(2)), t.power(y, exactly(2)));
    let base = near(95, 100);
    let more = raw_bonus_of(t, exactly(total_hits)) - base;
    lemma_near_place(95, 100);
    lemma_times_share(more, v);
    lemma_times_share(more, w);
    lemma_times_order(more, v, more, w);
    lemma_plus(base, more * v);
    lemma_plus(base, more * w);
    lemma_plus_order(base, more * v, base, more * w);
    lemma_order(base + more * v, base + more * w);
}

/// Consistency never adds to a score.
pub proof fn law_consistency_never_rewards(
    calculator: OsuPerformanceCalculator,
    t: Table,
    misses: Value,
)
    ensures
        calculator.apply_cc_v3_multiplier_of(t, misses).at_most(exactly(1)),
{
    lemma_one();
    lemma_order(exactly(1), exactly(1));
    reveal(Value::lesser);
    reveal(Value::below);
    reveal(Value::equals);
}

/// Relax, Autopilot and NoFail bypass it, and so do scores without misses and
/// Mehs.
pub proof fn law_other_systems_bypass_consistency(
    calculator: OsuPerformanceCalculator,
    t: Table,
    misses: Value,
)
    requires
        calculator.mods.rx || calculator.mods.ap || calculator.mods.nf || (misses.at_most(
            exactly(0),
        ) && calculator.state.hitresults.n50 == 0),
    ensures
        calculator.apply_cc_v3_multiplier_of(t, misses) == exactly(1),
{
}

/// Under Relax speed is worth nothing.
pub proof fn law_relax_has_no_speed(
    score: OsuPerformanceCalculator,
    t: Table,
    speed_deviation: Option<Value>,
    misses: Value,
)
    requires
        score.mods.rx,
    ensures
        score.compute_speed_value_of(t, speed_deviation, misses) == (exactly(0), exactly(0)),
{
}

/// Under Autopilot aim is worth nothing, unless Flashlight hides the map.
pub proof fn law_autopilot_has_no_aim(score: OsuPerformanceCalculator, t: Table, misses: Value)
    requires
        score.mods.ap,
        !score.mods.fl,
    ensures
        score.compute_aim_value_of(t, misses) == (exactly(0), exactly(0)),
{
}

/// Without Flashlight there is nothing to memorize.
pub proof fn law_memory_needs_flashlight(score: OsuPerformanceCalculator, t: Table, misses: Value)
    requires
        !score.mods.fl,
    ensures
        score.compute_flashlight_value_of(t, misses) == exactly(0),
{
}

/// The factors of the standalone systems count only under the mods they are for.
pub proof fn law_systems_need_their_mods(
    score: OsuPerformanceCalculator,
    t: Table,
    score_based: Option<Value>,
    ap_mult: Value,
    other_ap_mult: Value,
    nf_mult: Value,
    other_nf_mult: Value,
)
    requires
        score.mods.ap ==> ap_mult == other_ap_mult,
        score.mods.nf ==> nf_mult == other_nf_mult,
    ensures
        score.rated_of(t, score_based, ap_mult, nf_mult) == score.rated_of(
            t,
            score_based,
            other_ap_mult,
            other_nf_mult,
        ),
{
}

/// The same score on a touch device.
pub open spec fn touched(score: OsuPerformanceCalculator) -> OsuPerformanceCalculator {
    OsuPerformanceCalculator { mods: GameMods { td: true, ..score.mods }, ..score }
}

/// Whether the bonuses for what is seen are the same on a touch device.
pub open spec fn seen_alike(score: OsuPerformanceCalculator, t: Table) -> bool {
    let mods = touched(score).mods;
    let ar = score.attrs.ar@;
    let sliders = Some(score.attrs.slider_factor@);
    &&& t.visibility_bonus(mods, ar, sliders) == t.visibility_bonus(score.mods, ar, sliders)
    &&& t.visibility_bonus(mods, ar, None) == t.visibility_bonus(score.mods, ar, None)
}

/// The misses of a score are the same on a touch device.
proof fn lemma_touched_misses(score: OsuPerformanceCalculator, t: Table, misses: Value)
    ensures
        touched(score).calculate_combo_based_estimated_miss_count_of()
            == score.calculate_combo_based_estimated_miss_count_of(),
        touched(score).counted_misses_of(t, misses) == score.counted_misses_of(t, misses),
        touched(score).penalty_misses_of(misses) == score.penalty_misses_of(misses),
        touched(score).calculate_speed_deviation_of(t) == score.calculate_speed_deviation_of(t),
{
}

/// So is aim.
proof fn lemma_touched_aim(score: OsuPerformanceCalculator, t: Table, misses: Value)
    requires
        score.mods.tc ==> seen_alike(score, t),
    ensures
        touched(score).compute_aim_value_of(t, misses) == score.compute_aim_value_of(t, misses),
{
    let factor = score.attrs.aim_top_weighted_slider_factor@;
    assert(touched(score).calculate_estimated_slider_breaks_of(t, factor, misses)
        == score.calculate_estimated_slider_breaks_of(t, factor, misses));
    assert(touched(score).dropped_difficult_sliders_of() == score.dropped_difficult_sliders_of());
}

/// So is speed.
proof fn lemma_touched_speed(
    score: OsuPerformanceCalculator,
    t: Table,
    deviation: Option<Value>,
    misses: Value,
)
    requires
        score.mods.tc ==> seen_alike(score, t),
    ensures
        touched(score).compute_speed_value_of(t, deviation, misses)
            == score.compute_speed_value_of(t, deviation, misses),
        touched(score).speed_rework_of() == score.speed_rework_of(),
{
    let factor = score.attrs.speed_top_weighted_slider_factor@;
    assert(touched(score).calculate_estimated_slider_breaks_of(t, factor, misses)
        == score.calculate_estimated_slider_breaks_of(t, factor, misses));
    assert(touched(score).speed_note_accuracy_of(t) == score.speed_note_accuracy_of(t));
    if let Some(deviation) = deviation {
        assert(touched(score).calculate_speed_high_deviation_nerf_of(t, deviation)
            == score.calculate_speed_high_deviation_nerf_of(t, deviation));
    }
}

/// So are accuracy and what is memorized.
proof fn lemma_touched_rest(score: OsuPerformanceCalculator, t: Table, misses: Value)
    ensures
        touched(score).compute_accuracy_value_of(t) == score.compute_accuracy_value_of(t),
        touched(score).compute_flashlight_value_of(t, misses) == score.compute_flashlight_value_of(
            t,
            misses,
        ),
{
    assert(touched(score).better_accuracy_of() == score.better_accuracy_of());
}

/// So are the factors on the skills.
proof fn lemma_touched_factors(
    score: OsuPerformanceCalculator,
    t: Table,
    w: Worth<Value>,
    misses: Value,
    ap_mult: Value,
    nf_mult: Value,
)
    ensures
        touched(score).over_minutes_of(t, w) == score.over_minutes_of(t, w),
        touched(score).after_misses_of(t, w, misses, ap_mult, nf_mult) == score.after_misses_of(
            t,
            w,
            misses,
            ap_mult,
            nf_mult,
        ),
        touched(score).map_nerfs_of(w) == score.map_nerfs_of(w),
        touched(score).combined_of(t, w) == score.combined_of(t, w),
{
    assert(touched(score).apply_cc_v3_multiplier_of(t, misses) == score.apply_cc_v3_multiplier_of(
        t,
        misses,
    ));
    assert(touched(score).combo_ratio_tax_of(t) == score.combo_ratio_tax_of(t));
    assert(touched(score).base_factor_of(t) == score.base_factor_of(t));
}

/// A touch device costs a tenth of what a score is worth, and of each skill, where
/// the bonus of Traceable does not depend on the device.
pub proof fn law_touch_devices_cost_a_tenth(
    score: OsuPerformanceCalculator,
    t: Table,
    score_based: Option<Value>,
    ap_mult: Value,
    nf_mult: Value,
)
    requires
        !score.mods.td,
        score.mods.tc ==> seen_alike(score, t),
    ensures
        ({
            let free = score.rated_of(t, score_based, ap_mult, nf_mult);
            let cost = touched(score).rated_of(t, score_based, ap_mult, nf_mult);
            &&& cost.pp == free.pp * near(90, 100)
            &&& cost.worth == free.worth.scaled_of(near(90, 100))
            &&& cost.effective_miss_count == free.effective_miss_count
        }),
{
    let estimated = match score_based {
        Some(misses) => misses,
        None => score.calculate_combo_based_estimated_miss_count_of(),
    };
    lemma_touched_misses(score, t, estimated);
    let effective = score.counted_misses_of(t, estimated);
    lemma_touched_misses(score, t, effective);
    let penalty = score.penalty_misses_of(effective);
    let deviation = score.calculate_speed_deviation_of(t);
    lemma_touched_aim(score, t, penalty);
    lemma_touched_speed(score, t, deviation, penalty);
    lemma_touched_rest(score, t, penalty);
    let skills = Worth {
        aim: score.compute_aim_value_of(t, penalty).0,
        speed: score.compute_speed_value_of(t, deviation, penalty).0 * score.speed_rework_of(),
        acc: score.compute_accuracy_value_of(t),
        flashlight: score.compute_flashlight_value_of(t, penalty),
    };
    lemma_touched_factors(score, t, skills, effective, ap_mult, nf_mult);
    let sustained = score.over_minutes_of(t, skills);
    lemma_touched_factors(score, t, sustained, effective, ap_mult, nf_mult);
    let missed = score.after_misses_of(t, sustained, effective, ap_mult, nf_mult);
    lemma_touched_factors(score, t, missed, effective, ap_mult, nf_mult);
    let nerfed = score.map_nerfs_of(missed);
    lemma_touched_factors(score, t, nerfed, effective, ap_mult, nf_mult);
}

/// How unstable timing is, from 10 to 50, as a share.
spec fn unrest_of(deviation: Value) -> Value {
    ((deviation * exactly(10) - exactly(10)).greater(exactly(0)) / exactly(40)).clamped(
        exactly(0),
        exactly(1),
    )
}

/// More unstable timing is a larger share, and all of it from a deviation of five on.
proof fn lemma_unrest(even: Value, uneven: Value)
    requires
        number(even) && number(uneven),
        0 <= place(even) <= place(uneven),
    ensures
        finite(unrest_of(even)) && finite(unrest_of(uneven)),
        0 <= place(unrest_of(even)) <= place(unrest_of(uneven)) <= one_units(),
        5 * one_units() <= place(uneven) ==> unrest_of(uneven) == exactly(1),
{
    lemma_one();
    let u = one_units();
    let ten = exactly(10);
    lemma_whole_place(5);
    lemma_whole_place(10);
    lemma_whole_place(40);
    lemma_whole_place(50);
    lemma_commutes(even, ten);
    lemma_commutes(uneven, ten);
    lemma_commutes(exactly(5), ten);
    lemma_factor_order(ten, even, uneven);
    let (a, b) = (even * ten, uneven * ten);
    lemma_minus(a, ten);
    lemma_minus(b, ten);
    lemma_minus_order(a, b, ten);
    lemma_greater(a - ten, exactly(0));
    lemma_greater(b - ten, exactly(0));
    let (c, d) = ((a - ten).greater(exactly(0)), (b - ten).greater(exactly(0)));
    lemma_over(c, exactly(40));
    lemma_over(d, exactly(40));
    lemma_over_order(c, d, exactly(40));
    lemma_clamped(c / exactly(40), exactly(0), exactly(1));
    lemma_clamped(d / exactly(40), exactly(0), exactly(1));
    if 5 * u <= place(uneven) {
        lemma_factor_order(ten, exactly(5), uneven);
        lemma_exact_product(5, 10);
        lemma_minus_order(exactly(50), b, ten);
        lemma_minus(exactly(50), ten);
        lemma_settle_fits(exactly(40));
        assert(50 * u - 10 * u == 40 * u);
        lemma_fraction(40, 40);
        lemma_over_order(exactly(40), d, exactly(40));
        lemma_is_one(unrest_of(uneven));
    }
}

/// Unstable timing costs: the more the larger the deviation of taps is and the stricter
/// the map, a tenth and more on the strictest from a deviation of five on.
pub proof fn law_unstable_timing_costs(
    lenient: Value,
    strict: Value,
    even: Value,
    uneven: Value,
)
    requires
        finite(lenient) && finite(strict),
        0 <= place(lenient) <= place(strict) <= one_units(),
        number(even) && number(uneven),
        0 <= place(even) <= place(uneven),
    ensures
        ({
            let less = OsuPerformanceCalculator::calculate_consistency_multiplier_of(
                strict,
                Some(uneven),
            );
            let more = OsuPerformanceCalculator::calculate_consistency_multiplier_of(
                lenient,
                Some(even),
            );
            &&& less.at_most(more) && more.at_most(exactly(1))
            &&& strict == exactly(1) && exactly(5).at_most(uneven) ==> less.at_most(near(9, 10))
        }),
{
    lemma_one();
    lemma_whole_place(5);
    lemma_order(exactly(5), uneven);
    let (a, b) = (unrest_of(even), unrest_of(uneven));
    lemma_unrest(even, uneven);
    lemma_near_place(12, 100);
    lemma_near_places(12, 100, 1, 1);
    lemma_near_place(88, 100);
    lemma_near_places(88, 100, 1, 1);
    lemma_times_share(near(12, 100), lenient);
    lemma_times_share(near(12, 100), strict);
    lemma_times_order(near(12, 100), lenient, near(12, 100), strict);
    let (x, y) = (near(12, 100) * lenient, near(12, 100) * strict);
    lemma_times_share(x, a);
    lemma_times_share(y, b);
    lemma_times_order(x, a, y, b);
    lemma_left_of_one(x * a);
    lemma_left_of_one(y * b);
    lemma_settle_order(one_units() - place(y * b), 1, one_units() - place(x * a), 1);
    lemma_clamped(exactly(1) - x * a, near(88, 100), exactly(1));
    lemma_clamped(exactly(1) - y * b, near(88, 100), exactly(1));
    let less = (exactly(1) - y * b).clamped(near(88, 100), exactly(1));
    let more = (exactly(1) - x * a).clamped(near(88, 100), exactly(1));
    lemma_order(less, more);
    lemma_order(more, exactly(1));
    lemma_near_place(9, 10);
    lemma_near_places(88, 100, 9, 10);
    if strict == exactly(1) && 5 * one_units() <= place(uneven) {
        lemma_times_one(near(12, 100));
        lemma_dyadic(7);
        lemma_dyadic(57);
        lemma_near_places(7, 64, 12, 100);
        lemma_near_places(57, 64, 9, 10);
        lemma_settle_fits(near(57, 64));
        lemma_settle_order(one_units() - place(near(12, 100)), 1, place(near(57, 64)), 1);
        lemma_order(less, near(9, 10));
    }
}

/// Short combos cost: the longer the combo the less, and a score without one keeps 85%
/// for it and three quarters for where its misses were.
pub proof fn law_short_combos_cost(
    shorter: OsuPerformanceCalculator,
    longer: OsuPerformanceCalculator,
    t: Table,
    misses: Value,
)
    requires
        shorter.attrs.max_combo == longer.attrs.max_combo,
        shorter.attrs.max_combo > 0,
        shorter.state.max_combo <= longer.state.max_combo,
        rises(
            t,
            near(35, 100),
            combo_share_of(shorter.attrs.max_combo, shorter.state.max_combo),
            combo_share_of(shorter.attrs.max_combo, longer.state.max_combo),
        ),
    ensures
        shorter.combo_ratio_tax_of(t).at_most(longer.combo_ratio_tax_of(t)),
        longer.combo_ratio_tax_of(t).at_most(exactly(1)),
        near(85, 100).at_most(shorter.combo_ratio_tax_of(t)),
        ({
            let none = combo_share_of(shorter.attrs.max_combo, 0);
            let p = t.power(none, near(35, 100));
            shorter.state.max_combo == 0 && finite(p) && place(p) == 0
                ==> shorter.combo_ratio_tax_of(t).at_most(near(85, 100))
        }),
        ({
            let none = combo_share_of(shorter.attrs.max_combo, 0);
            let p = t.power(none, near(7, 10));
            !misses.at_most(exactly(0)) && finite(p) && place(p) == 0
                ==> OsuPerformanceCalculator::miss_combo_multiplier_of(
                t,
                shorter.attrs.max_combo,
                0,
                misses,
            ).at_most(near(75, 100))
        }),
{
    lemma_one();
    let max = shorter.attrs.max_combo;
    let u = one_units();
    let (a, b) = (
        combo_share_of(max, shorter.state.max_combo),
        combo_share_of(max, longer.state.max_combo),
    );
    lemma_combo_share(shorter.state.max_combo, max);
    lemma_combo_share(longer.state.max_combo, max);
    lemma_whole_place(shorter.state.max_combo as nat);
    lemma_whole_place(longer.state.max_combo as nat);
    lemma_whole_place(max as nat);
    assert(shorter.state.max_combo * u <= longer.state.max_combo * u && max * u > 0)
        by (nonlinear_arith)
        requires
            shorter.state.max_combo <= longer.state.max_combo,
            max > 0,
            u > 0,
    ;
    let (x, y) = (exactly(shorter.state.max_combo as nat), exactly(longer.state.max_combo as nat));
    let full = exactly(max as nat);
    lemma_over(x, full);
    lemma_over(y, full);
    lemma_over_order(x, y, full);
    lemma_clamped(x / full, exactly(0), exactly(1));
    lemma_clamped(y / full, exactly(0), exactly(1));
    let (v, w) = (t.power(a, near(35, 100)), t.power(b, near(35, 100)));
    lemma_near_place(85, 100);
    lemma_near_place(15, 100);
    lemma_near_places(85, 100, 1, 1);
    lemma_near_places(15, 100, 1, 1);
    lemma_times_share(near(15, 100), v);
    lemma_times_share(near(15, 100), w);
    lemma_times_order(near(15, 100), v, near(15, 100), w);
    let (m, n) = (near(15, 100) * v, near(15, 100) * w);
    lemma_sum(near(85, 100), m);
    lemma_sum(near(85, 100), n);
    lemma_sum_order(near(85, 100), m, near(85, 100), n);
    lemma_lesser(near(85, 100) + m, exactly(1));
    lemma_lesser(near(85, 100) + n, exactly(1));
    let (r, s) = (shorter.combo_ratio_tax_of(t), longer.combo_ratio_tax_of(t));
    lemma_order(r, s);
    lemma_order(s, exactly(1));
    lemma_order(near(85, 100), r);
    lemma_order(r, near(85, 100));
    if place(v) == 0 {
        lemma_nothing(v, near(15, 100));
        lemma_plus(near(85, 100), m);
        lemma_settle_fits(near(85, 100));
    }
    let p = t.power(combo_share_of(max, 0), near(7, 10));
    if !misses.at_most(exactly(0)) && finite(p) && place(p) == 0 {
        lemma_quarters();
        lemma_nothing(p, near(25, 100));
        lemma_plus(near(75, 100), near(25, 100) * p);
        lemma_settle_fits(near(75, 100));
        lemma_clamped(near(75, 100) + near(25, 100) * p, near(75, 100), exactly(1));
        lemma_order(
            OsuPerformanceCalculator::miss_combo_multiplier_of(t, max, 0, misses),
            near(75, 100),
        );
    }
}

/// A long map that was played flawlessly has a bonus of three tenths and more.
pub proof fn law_long_maps_have_a_bonus(t: Table, total_hits: nat)
    requires
        2000 <= total_hits <= u32::MAX,
        logs_hits(t, total_hits),
        t.power(exactly(1), exactly(2)) == exactly(1),
    ensures
        near(13, 10).at_most(
            OsuPerformanceCalculator::length_bonus_of(t, exactly(total_hits), exactly(1)),
        ),
{
    lemma_one();
    let u = one_units();
    let hits = exactly(total_hits);
    let base = near(95, 100);
    lemma_raw_bonus(t, total_hits);
    lemma_clamped(exactly(1), exactly(0), exactly(1));
    lemma_is_one(exactly(1).clamped(exactly(0), exactly(1)));
    let raw = raw_bonus_of(t, hits);
    lemma_whole_place(total_hits);
    lemma_whole_place(2000);
    lemma_whole_place(10);
    assert(2000 * u <= total_hits * u) by (nonlinear_arith)
        requires
            2000 <= total_hits,
    ;
    lemma_over(hits, exactly(2000));
    lemma_fraction(2000, 2000);
    lemma_over_order(exactly(2000), hits, exactly(2000));
    lemma_lesser(hits / exactly(2000), exactly(1));
    let share = (hits / exactly(2000)).lesser(exactly(1));
    lemma_inside(exactly(1));
    lemma_inside(share);
    lemma_is_one(share);
    lemma_near_place(4, 10);
    lemma_near_place(95, 100);
    lemma_near_places(95, 100, 1, 1);
    lemma_near_places(4, 10, 1, 1);
    lemma_near_places(25, 64, 4, 10);
    lemma_near_places(60, 64, 95, 100);
    lemma_near_places(95, 100, 61, 64);
    lemma_near_places(13, 10, 84, 64);
    lemma_near_place(13, 10);
    lemma_dyadic(24);
    lemma_dyadic(25);
    lemma_dyadic(60);
    lemma_dyadic(61);
    lemma_dyadic(84);
    lemma_dyadic(85);
    lemma_times_one(near(4, 10));
    let some = base + near(4, 10);
    lemma_plus(base, near(4, 10));
    lemma_settle_fits(near(85, 64));
    lemma_settle_order(place(near(85, 64)), 1, place(base) + place(near(4, 10)), 1);
    lemma_sum(base, near(4, 10));
    let log = t.log10(hits / exactly(2000));
    let long = if exactly(2000).below(hits) {
        exactly(1)
    } else {
        exactly(0)
    };
    lemma_order(exactly(2000), hits);
    assert(2000 * u < total_hits * u <==> 2000 < total_hits) by (nonlinear_arith)
        requires
            u > 0,
    ;
    lemma_near_place(5, 10);
    lemma_near_places(5, 10, 1, 1);
    if total_hits > 2000 {
        lemma_order(exactly(0), log);
        lemma_order(log, exactly(10));
        lemma_share_times(long, log);
    } else {
        lemma_nothing(long, log);
    }
    lemma_times_share(long * log, near(5, 10));
    lemma_sum(some, long * log * near(5, 10));
    let more = raw - base;
    assert(place(near(24, 64)) <= place(more)) by {
        lemma_minus_order(near(85, 64), raw, base);
        lemma_minus(near(85, 64), base);
        lemma_settle_fits(near(24, 64));
        lemma_settle_order(
            place(near(24, 64)),
            1,
            place(near(85, 64)) - place(base),
            1,
        );
    }
    lemma_times_one(more);
    lemma_plus(base, more);
    lemma_settle_fits(near(84, 64));
    lemma_settle_order(place(near(84, 64)), 1, place(base) + place(more), 1);
    lemma_sum(base, more);
    lemma_order(near(13, 10), base + more);
}

/// Misses weigh on consistency by a power of 998 thousandths, which is all that remains
/// of a score that nothing else bypasses.
pub proof fn law_misses_cost_consistency(
    score: OsuPerformanceCalculator,
    t: Table,
    misses: Value,
)
    requires
        !score.mods.rx && !score.mods.ap && !score.mods.nf,
        !(misses + score.n50_misses_of(t)).at_most(exactly(0)),
        !misses.at_most(exactly(0)) || score.state.hitresults.n50 > 0,
        finite(score.acc@),
    ensures
        exists|weight: Value|
            {
                let left = #[trigger] t.power(near(998, 1000), weight);
                number(left) && 0 <= place(left) <= one_units()
                    ==> score.apply_cc_v3_multiplier_of(t, misses).equals(left)
            },
{
    lemma_one();
    let all = misses + score.n50_misses_of(t);
    let combo = exactly(score.attrs.max_combo as nat);
    let base_exp = near(21, 10) + near(9, 10) * (exactly(1) - t.exp(all.negated() / exactly(8)));
    let softening = exactly(1) - near(15, 100) * ((combo - exactly(1000)) / exactly(4000)).clamped(
        exactly(0),
        exactly(1),
    );
    let weight = t.power(all, base_exp * softening);
    let left = t.power(near(998, 1000), weight);
    let acc = (score.acc@ - near(95, 100)) / near(5, 100);
    lemma_near_place(95, 100);
    lemma_near_place(5, 100);
    lemma_near_places(1, 64, 5, 100);
    lemma_dyadic(1);
    lemma_minus(score.acc@, near(95, 100));
    lemma_over(score.acc@ - near(95, 100), near(5, 100));
    lemma_clamped(acc, exactly(0), exactly(1));
    lemma_whole_place(score.attrs.max_combo as nat);
    lemma_whole_place(4000);
    lemma_over(combo, exactly(4000));
    lemma_clamped(combo / exactly(4000), exactly(0), exactly(1));
    let (a, b) = (
        acc.clamped(exactly(0), exactly(1)),
        (combo / exactly(4000)).clamped(exactly(0), exactly(1)),
    );
    lemma_nothing(exactly(0), a);
    lemma_nothing(exactly(0) * a, b);
    let relief = exactly(0) * a * b;
    if number(left) && 0 <= place(left) <= one_units() {
        lemma_inside(exactly(1));
        lemma_inside(left);
        lemma_plus(left, relief);
        lemma_settle_fits(left);
        lemma_lesser(left + relief, exactly(1));
        reveal(Value::equals);
    }
}

} // verus!
