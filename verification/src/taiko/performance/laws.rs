//! What holds of the worth of osu!taiko scores, whatever the score.
use vstd::prelude::*;

use crate::order::{
    finite, lemma_dyadic, lemma_fits, lemma_greater, lemma_inside, lemma_lesser, lemma_minus,
    lemma_near_place, lemma_near_places, lemma_one, lemma_order, lemma_over, lemma_over_order,
    lemma_plus, lemma_proper, lemma_settle_fits, lemma_settle_order, lemma_sum, lemma_times_one,
    lemma_times_order, lemma_times_share, lemma_whole_place, number, place, proper,
};
use crate::query::Table;
use crate::signs::{
    from_on, lemma_add_from, lemma_commutes, lemma_divide, lemma_factor_order, lemma_large_times,
    lemma_multiply, lemma_multiply_from, lemma_multiply_same, lemma_some_times, not_negative,
};
use crate::taiko::performance::calculator::{lemma_after_misses, TaikoPerformanceCalculator};
use crate::value::{exactly, near, one_units, Value};

verus! {

/// The bonus for the number of difficult hits.
pub open spec fn long_of(difficult_hits: Value) -> Value {
    exactly(1) + near(25, 100) * difficult_hits / (difficult_hits + exactly(4000))
}

/// What a miss leaves at least on a map of a length.
pub open spec fn left_of(difficult_hits: Value) -> Value {
    near(97, 100) + near(3, 100) * difficult_hits / (difficult_hits + exactly(1500))
}

/// The bonus for Flashlight.
pub open spec fn lit_of(score: TaikoPerformanceCalculator, difficult_hits: Value) -> Value {
    exactly(1).greater(
        near(105, 100) - (score.attrs.mono_stamina_factor@ / exactly(50)).lesser(exactly(1))
            * long_of(difficult_hits),
    )
}

/// What the accuracy of a score leaves of its difficulty.
pub open spec fn even_of(
    score: TaikoPerformanceCalculator,
    t: Table,
    unstable_rate: Value,
) -> Value {
    let stamina = score.attrs.mono_stamina_factor@;
    t.power(
        t.erf(
            (exactly(500) - exactly(100) * (stamina * exactly(3))) / (exactly(2).root()
                * unstable_rate),
        ),
        exactly(2) + stamina,
    )
}

/// Whether two scores were made on the same map with the same mods, and as many notes
/// were judged in both.
pub open spec fn same_play(a: TaikoPerformanceCalculator, b: TaikoPerformanceCalculator) -> bool {
    &&& a.attrs == b.attrs
    &&& a.is_classic == b.is_classic
    &&& a.state.hitresults.total() == b.state.hitresults.total()
}

/// The bonus for Hidden is at least one.
proof fn lemma_hidden(score: TaikoPerformanceCalculator)
    ensures
        finite(score.hidden_factor_of()),
        one_units() <= place(score.hidden_factor_of()),
{
    lemma_one();
    lemma_near_place(25, 1000);
    lemma_near_place(1, 10);
    lemma_near_place(2, 10);
    lemma_near_place(5, 10);
    lemma_near_places(25, 1000, 1, 1);
    lemma_near_places(1, 10, 1, 1);
    lemma_near_places(2, 10, 1, 1);
    lemma_near_places(5, 10, 1, 1);
    let base = if score.attrs.is_convert {
        near(25, 1000)
    } else {
        near(1, 10)
    };
    lemma_times_share(base, near(2, 10));
    let lazer = if !score.mods.fl && !score.is_classic {
        base * near(2, 10)
    } else {
        base
    };
    lemma_times_share(lazer, near(5, 10));
    let easy = if !score.mods.fl && score.mods.ez && score.is_classic {
        lazer * near(5, 10)
    } else {
        lazer
    };
    lemma_plus(exactly(1), easy);
    lemma_whole_place(2);
    lemma_settle_fits(exactly(1));
    lemma_settle_fits(exactly(2));
    lemma_settle_order(one_units() as int, 1, one_units() + place(easy), 1);
    lemma_settle_order(one_units() + place(easy), 1, (2 * one_units()) as int, 1);
    lemma_inside(exactly(2));
    lemma_inside(exactly(1) + easy);
}

/// What mods and accuracy make of two values keeps their order.
proof fn lemma_after_mods(
    score: TaikoPerformanceCalculator,
    t: Table,
    difficult_hits: Value,
    unstable_rate: Value,
    less: Value,
    more: Value,
)
    requires
        from_on(more, less),
        score.mods.fl ==> finite(lit_of(score, difficult_hits)) && 0 <= place(
            lit_of(score, difficult_hits),
        ),
        finite(even_of(score, t, unstable_rate)) && 0 <= place(even_of(score, t, unstable_rate)),
    ensures
        from_on(
            after_mods_of(score, t, difficult_hits, unstable_rate, more),
            after_mods_of(score, t, difficult_hits, unstable_rate, less),
        ),
{
    lemma_one();
    lemma_hidden(score);
    lemma_multiply_same(more, less, score.hidden_factor_of());
    let (a, b) = if score.mods.hd {
        (less * score.hidden_factor_of(), more * score.hidden_factor_of())
    } else {
        (less, more)
    };
    let lit = lit_of(score, difficult_hits);
    if score.mods.fl {
        lemma_multiply_same(b, a, lit);
    }
    let (c, d) = if score.mods.fl {
        (a * lit, b * lit)
    } else {
        (a, b)
    };
    lemma_multiply_same(d, c, even_of(score, t, unstable_rate));
}

/// What mods and accuracy make of a value.
spec fn after_mods_of(
    score: TaikoPerformanceCalculator,
    t: Table,
    difficult_hits: Value,
    unstable_rate: Value,
    value: Value,
) -> Value {
    let hidden = if score.mods.hd {
        value * score.hidden_factor_of()
    } else {
        value
    };
    let lit = if score.mods.fl {
        hidden * lit_of(score, difficult_hits)
    } else {
        hidden
    };
    lit * even_of(score, t, unstable_rate)
}

/// A value after misses keeps no more with more of them.
proof fn lemma_fewer_misses(
    score: TaikoPerformanceCalculator,
    other: TaikoPerformanceCalculator,
    value: Value,
    penalty: Value,
    m: nat,
    n: nat,
)
    requires
        same_play(score, other),
        score.state.hitresults.n300 == other.state.hitresults.n300,
        score.miss_timestamps@ == other.miss_timestamps@,
        score.object_timestamps@ == other.object_timestamps@,
        other.state.hitresults.misses <= score.state.hitresults.misses,
        finite(value) && 0 <= place(value),
        finite(penalty) && 0 <= place(penalty) <= one_units(),
        m <= n,
        m > 0 ==> place(penalty) <= place(near(9995, 10_000)),
    ensures
        finite(score.after_misses_of(value, penalty, n)),
        finite(other.after_misses_of(value, penalty, m)),
        0 <= place(score.after_misses_of(value, penalty, n)) <= place(
            other.after_misses_of(value, penalty, m),
        ),
    decreases n,
{
    lemma_one();
    lemma_near_place(9995, 10_000);
    lemma_near_places(9995, 10_000, 1, 1);
    if n > 0 {
        let k = (n - 1) as nat;
        let a = score.miss_factor_of(k, penalty);
        if m < n {
            lemma_fewer_misses(score, other, value, penalty, m, k);
            lemma_times_share(score.after_misses_of(value, penalty, k), a);
        } else {
            lemma_fewer_misses(score, other, value, penalty, k, k);
            let b = other.miss_factor_of(k, penalty);
            assert(score.compute_all_effective_speeds_of()
                =~= other.compute_all_effective_speeds_of());
            lemma_times_share(score.after_misses_of(value, penalty, k), a);
            lemma_times_share(other.after_misses_of(value, penalty, k), b);
            lemma_times_order(
                score.after_misses_of(value, penalty, k),
                a,
                other.after_misses_of(value, penalty, k),
                b,
            );
        }
    }
}

/// No play with misses is worth more in difficulty than the same play without them;
/// nor than the same play with fewer, where a miss in a slow section costs no more than
/// another one.
pub proof fn law_misses_never_add_difficulty(
    score: TaikoPerformanceCalculator,
    other: TaikoPerformanceCalculator,
    t: Table,
    difficult_hits: Value,
    unstable_rate: Option<Value>,
)
    requires
        same_play(score, other),
        score.mods == other.mods,
        score.state.hitresults.n300 == other.state.hitresults.n300,
        score.miss_timestamps@ == other.miss_timestamps@,
        score.object_timestamps@ == other.object_timestamps@,
        other.state.hitresults.misses <= score.state.hitresults.misses,
        other.state.hitresults.misses > 0 ==> left_of(difficult_hits).at_most(near(9995, 10_000)),
        finite(left_of(difficult_hits)),
        exactly(0).at_most(left_of(difficult_hits)),
        left_of(difficult_hits).at_most(exactly(1)),
        unstable_rate matches Some(rate) ==> {
            let clean = score.clean_difficulty_of(t, rate, long_of(difficult_hits));
            &&& finite(clean) && exactly(0).at_most(clean)
            &&& finite(even_of(score, t, rate)) && exactly(0).at_most(even_of(score, t, rate))
        },
        score.mods.fl ==> finite(lit_of(score, difficult_hits)) && exactly(0).at_most(
            lit_of(score, difficult_hits),
        ),
    ensures
        ({
            let a = score.compute_difficulty_value_of(t, difficult_hits, unstable_rate);
            let b = other.compute_difficulty_value_of(t, difficult_hits, unstable_rate);
            !(b is Nan) ==> a.at_most(b)
        }),
{
    lemma_one();
    lemma_near_place(9995, 10_000);
    let penalty = left_of(difficult_hits);
    lemma_order(exactly(0), penalty);
    lemma_order(penalty, exactly(1));
    lemma_order(penalty, near(9995, 10_000));
    lemma_order(exactly(0), exactly(0));
    if let Some(rate) = unstable_rate {
        let clean = score.clean_difficulty_of(t, rate, long_of(difficult_hits));
        lemma_order(exactly(0), clean);
        lemma_order(exactly(0), even_of(score, t, rate));
        if score.mods.fl {
            lemma_order(exactly(0), lit_of(score, difficult_hits));
        }
        assert(other.clean_difficulty_of(t, rate, long_of(difficult_hits)) == clean);
        lemma_fewer_misses(
            score,
            other,
            clean,
            penalty,
            other.state.hitresults.misses as nat,
            score.state.hitresults.misses as nat,
        );
        let less = score.after_misses_of(clean, penalty, score.state.hitresults.misses as nat);
        let more = other.after_misses_of(clean, penalty, other.state.hitresults.misses as nat);
        lemma_after_mods(score, t, difficult_hits, rate, less, more);
        let a = score.compute_difficulty_value_of(t, difficult_hits, unstable_rate);
        let b = other.compute_difficulty_value_of(t, difficult_hits, unstable_rate);
        assert(score.hidden_factor_of() == other.hidden_factor_of());
        if !t.same(difficult_hits, exactly(0)) {
            assert(a == after_mods_of(score, t, difficult_hits, rate, less));
            assert(b == after_mods_of(score, t, difficult_hits, rate, more));
            if !(b is Nan) {
                lemma_order(a, b);
            }
        }
    }
}

/// A score without misses keeps its whole difficulty, before mods: what accuracy
/// leaves of it, and no less under Hidden and Flashlight.
pub proof fn law_full_combos_keep_their_difficulty(
    score: TaikoPerformanceCalculator,
    t: Table,
    difficult_hits: Value,
    rate: Value,
)
    requires
        score.state.hitresults.misses == 0,
        !t.same(difficult_hits, exactly(0)),
        ({
            let clean = score.clean_difficulty_of(t, rate, long_of(difficult_hits));
            &&& finite(clean) && exactly(0).at_most(clean)
            &&& finite(even_of(score, t, rate)) && exactly(0).at_most(even_of(score, t, rate))
        }),
        score.mods.fl ==> finite(lit_of(score, difficult_hits)),
    ensures
        ({
            let value = score.compute_difficulty_value_of(t, difficult_hits, Some(rate));
            let clean = score.clean_difficulty_of(t, rate, long_of(difficult_hits));
            let kept = clean * even_of(score, t, rate);
            &&& !score.mods.hd && !score.mods.fl ==> value == kept
            &&& !(value is Nan) ==> kept.at_most(value)
        }),
{
    lemma_one();
    let value = score.compute_difficulty_value_of(t, difficult_hits, Some(rate));
    let clean = score.clean_difficulty_of(t, rate, long_of(difficult_hits));
    let even = even_of(score, t, rate);
    lemma_order(exactly(0), clean);
    lemma_order(exactly(0), even);
    lemma_hidden(score);
    assert(score.after_misses_of(clean, left_of(difficult_hits), 0) == clean);
    lemma_multiply_from(clean, clean, score.hidden_factor_of(), exactly(1));
    lemma_times_one(clean);
    let hidden = if score.mods.hd {
        clean * score.hidden_factor_of()
    } else {
        clean
    };
    let lit = lit_of(score, difficult_hits);
    if score.mods.fl {
        assert(one_units() <= place(lit)) by {
            reveal(Value::greater);
            lemma_lit(score, difficult_hits);
        }
        lemma_multiply_from(hidden, clean, lit, exactly(1));
    }
    let shown = if score.mods.fl {
        hidden * lit
    } else {
        hidden
    };
    lemma_multiply_same(shown, clean, even);
    assert(value == shown * even);
    if !(value is Nan) {
        lemma_order(clean * even, value);
    }
}

/// Each miss leaves at least 97% of a value, and at most what the more lenient of the
/// two penalties leaves.
pub proof fn law_each_miss_leaves_most(
    score: TaikoPerformanceCalculator,
    value: Value,
    penalty: Value,
    n: nat,
)
    requires
        finite(value) && exactly(0).at_most(value),
        finite(penalty) && near(97, 100).at_most(penalty) && penalty.at_most(exactly(1)),
    ensures
        ({
            let (before, after) = (
                score.after_misses_of(value, penalty, n),
                score.after_misses_of(value, penalty, n + 1),
            );
            &&& (before * near(97, 100)).at_most(after)
            &&& after.at_most(before * penalty.greater(near(9995, 10_000)))
        }),
{
    lemma_one();
    lemma_near_place(97, 100);
    lemma_near_place(9995, 10_000);
    lemma_near_places(97, 100, 9995, 10_000);
    lemma_near_places(97, 100, 1, 1);
    lemma_near_places(9995, 10_000, 1, 1);
    lemma_order(exactly(0), value);
    lemma_order(near(97, 100), penalty);
    lemma_order(penalty, exactly(1));
    lemma_greater(penalty, near(9995, 10_000));
    let most = penalty.greater(near(9995, 10_000));
    lemma_inside(exactly(1));
    lemma_inside(most);
    lemma_after_misses(score, value, penalty, n);
    let before = score.after_misses_of(value, penalty, n);
    let factor = score.miss_factor_of(n, penalty);
    lemma_times_share(before, factor);
    lemma_times_share(before, near(97, 100));
    lemma_times_share(before, most);
    lemma_times_order(before, near(97, 100), before, factor);
    lemma_times_order(before, factor, before, most);
    lemma_order(before * near(97, 100), before * factor);
    lemma_order(before * factor, before * most);
}

/// A score is worth at least what accuracy leaves of its difficulty after misses; mods
/// only add to it.
pub proof fn law_misses_leave_difficulty(
    score: TaikoPerformanceCalculator,
    t: Table,
    difficult_hits: Value,
    rate: Value,
)
    requires
        !t.same(difficult_hits, exactly(0)),
        finite(left_of(difficult_hits)),
        exactly(0).at_most(left_of(difficult_hits)),
        left_of(difficult_hits).at_most(exactly(1)),
        ({
            let clean = score.clean_difficulty_of(t, rate, long_of(difficult_hits));
            &&& finite(clean) && exactly(0).at_most(clean)
            &&& finite(even_of(score, t, rate)) && exactly(0).at_most(even_of(score, t, rate))
        }),
        score.mods.fl ==> finite(lit_of(score, difficult_hits)),
    ensures
        ({
            let value = score.compute_difficulty_value_of(t, difficult_hits, Some(rate));
            let left = score.after_misses_of(
                score.clean_difficulty_of(t, rate, long_of(difficult_hits)),
                left_of(difficult_hits),
                score.state.hitresults.misses as nat,
            );
            !(value is Nan) ==> (left * even_of(score, t, rate)).at_most(value)
        }),
{
    lemma_one();
    let value = score.compute_difficulty_value_of(t, difficult_hits, Some(rate));
    let clean = score.clean_difficulty_of(t, rate, long_of(difficult_hits));
    let penalty = left_of(difficult_hits);
    let even = even_of(score, t, rate);
    lemma_order(exactly(0), clean);
    lemma_order(exactly(0), even);
    lemma_order(exactly(0), penalty);
    lemma_order(penalty, exactly(1));
    let n = score.state.hitresults.misses as nat;
    lemma_after_misses(score, clean, penalty, n);
    let left = score.after_misses_of(clean, penalty, n);
    lemma_hidden(score);
    lemma_multiply_from(left, left, score.hidden_factor_of(), exactly(1));
    lemma_times_one(left);
    let hidden = if score.mods.hd {
        left * score.hidden_factor_of()
    } else {
        left
    };
    let lit = lit_of(score, difficult_hits);
    if score.mods.fl {
        lemma_lit(score, difficult_hits);
        lemma_multiply_from(hidden, left, lit, exactly(1));
    }
    let shown = if score.mods.fl {
        hidden * lit
    } else {
        hidden
    };
    lemma_multiply_same(shown, left, even);
    assert(value == shown * even);
    if !(value is Nan) {
        lemma_order(left * even, value);
    }
}

/// The bonus for Flashlight is at least one.
proof fn lemma_lit(score: TaikoPerformanceCalculator, difficult_hits: Value)
    requires
        finite(lit_of(score, difficult_hits)),
    ensures
        one_units() <= place(lit_of(score, difficult_hits)),
{
    lemma_one();
    reveal(Value::greater);
    let other = near(105, 100) - (score.attrs.mono_stamina_factor@ / exactly(50)).lesser(exactly(1))
        * long_of(difficult_hits);
    if lit_of(score, difficult_hits) == other {
        lemma_order(exactly(1), other);
    }
}

/// What the stars of a map make of its base difficulty.
pub open spec fn base_of(score: TaikoPerformanceCalculator, t: Table, rate: Value) -> Value {
    exactly(5) * exactly(1).greater(
        score.attrs.stars@ * score.rhythm_penalty_of(t, rate) / near(11, 100),
    ) - exactly(4)
}

/// The difficulty of a map is positive before misses, where the powers of its base
/// difficulty are at least one, as they are of every number from one on.
pub proof fn law_maps_have_difficulty(
    score: TaikoPerformanceCalculator,
    t: Table,
    rate: Value,
    difficult_hits: Value,
)
    requires
        ({
            let base = base_of(score, t, rate);
            let (cube, other) = (t.power(base, exactly(3)), t.power(base, near(225, 100)));
            &&& number(cube) && exactly(1).at_most(cube)
            &&& number(other) && exactly(1).at_most(other)
        }),
        finite(score.attrs.stars@),
        finite(difficult_hits) && exactly(0).at_most(difficult_hits),
    ensures
        exactly(0).below(score.clean_difficulty_of(t, rate, long_of(difficult_hits))),
{
    lemma_one();
    let base = base_of(score, t, rate);
    let (cube, other) = (t.power(base, exactly(3)), t.power(base, near(225, 100)));
    lemma_order(exactly(1), cube);
    lemma_order(exactly(1), other);
    lemma_order(exactly(0), difficult_hits);
    lemma_whole_place(1250);
    lemma_whole_place(70_000);
    lemma_whole_place(4000);
    lemma_whole_place(10);
    lemma_near_place(6_905_251, 100);
    lemma_near_places(6_905_251, 100, 70_000, 1);
    lemma_near_places(1, 1, 6_905_251, 100);
    assert(near(70_000, 1) == exactly(70_000)) by {
        reveal(Value::ratio);
        reveal(Value::whole);
    }
    lemma_over(cube, near(6_905_251, 100));
    lemma_over(other, exactly(1250));
    lemma_over(exactly(1), near(6_905_251, 100));
    lemma_over(exactly(1), exactly(1250));
    lemma_over_order(exactly(1), cube, near(6_905_251, 100));
    lemma_over_order(exactly(1), other, exactly(1250));
    lemma_small(near(6_905_251, 100));
    lemma_small(exactly(1250));
    let (x, y) = (cube / near(6_905_251, 100), other / exactly(1250));
    lemma_lesser(x, y);
    let raw = x.lesser(y);
    lemma_near_place(10, 100);
    lemma_minus(score.attrs.stars@, exactly(10));
    lemma_greater(exactly(0), score.attrs.stars@ - exactly(10));
    let over = exactly(0).greater(score.attrs.stars@ - exactly(10));
    lemma_multiply(near(10, 100), over);
    let bonus = near(10, 100) * over;
    assert(!(bonus is Nan)) by {
        lemma_near_places(1, 64, 10, 100);
        lemma_dyadic(1);
        lemma_some_times(near(10, 100), over);
    }
    lemma_sum(exactly(1), bonus);
    lemma_large_times(raw, exactly(1) + bonus);
    lemma_near_place(25, 100);
    lemma_near_places(25, 100, 1, 1);
    lemma_times_share(difficult_hits, near(25, 100));
    lemma_commutes(difficult_hits, near(25, 100));
    lemma_sum(difficult_hits, exactly(4000));
    let part = near(25, 100) * difficult_hits;
    let all = difficult_hits + exactly(4000);
    lemma_divide(part, all);
    assert(!((part / all) is Nan)) by {
        reveal(Value::over);
    }
    lemma_sum(exactly(1), part / all);
    lemma_large_times(raw * (exactly(1) + bonus), long_of(difficult_hits));
    lemma_order(exactly(0), score.clean_difficulty_of(t, rate, long_of(difficult_hits)));
}

/// One by a number up to 70000 is more than nothing.
proof fn lemma_small(d: Value)
    requires
        finite(d),
        0 < place(d) <= 70_000 * one_units(),
    ensures
        0 < place(exactly(1) / d),
{
    lemma_one();
    lemma_dyadic(1);
    lemma_whole_place(1);
    lemma_over(exactly(1), d);
    let (u, p) = (one_units(), place(d));
    vstd::arithmetic::power2::lemma2_to64();
    vstd::arithmetic::power2::lemma_pow2_adds(17, 1057);
    vstd::arithmetic::power2::lemma_pow2_pos(1057);
    vstd::arithmetic::power2::lemma_pow2_strictly_increases(0, 1057);
    vstd::arithmetic::power2::lemma_pow2_strictly_increases(0, 2098);
    lemma_fits(1, 0);
    let unit = Value::Finite { neg: false, units: 1 };
    assert(1 * vstd::arithmetic::power2::pow2(0) == 1);
    assert(finite(unit));
    lemma_settle_fits(unit);
    assert(1 * p <= (u * u) * 1) by (nonlinear_arith)
        requires
            p <= 70_000 * u,
            u >= 70_000,
    ;
    lemma_settle_order(1, 1, (u * u) as int, p as nat);
}

/// What the length of a map adds to accuracy.
pub open spec fn long_timing_of(difficult_hits: Value) -> Value {
    near(3, 10) * difficult_hits / (difficult_hits + exactly(4000))
}

/// What the difficulty of a map adds to accuracy.
pub open spec fn hard_timing_of(
    score: TaikoPerformanceCalculator,
    t: Table,
    unstable_rate: Value,
) -> Value {
    t.power(exactly(50) / unstable_rate, exactly(2)) * t.power(score.attrs.stars@, near(28, 10))
        / exactly(600)
}

/// Accuracy is worth at least what an unstable rate is worth alone on a map with a
/// window for Greats; the difficulty and length of the map and all mods only add to it.
pub proof fn law_accuracy_is_worth_its_unstable_rate(
    score: TaikoPerformanceCalculator,
    t: Table,
    difficult_hits: Value,
    rate: Value,
)
    requires
        !score.attrs.great_hit_window@.at_most(exactly(0)),
        not_negative(t.power(near(9885, 10_000), rate)),
        not_negative(hard_timing_of(score, t, rate)),
        not_negative(long_timing_of(difficult_hits)),
        proper(t.power(exactly(score.state.hitresults.total()) / exactly(1500), near(3, 10))),
    ensures
        ({
            let value = score.compute_accuracy_value_of(t, difficult_hits, Some(rate));
            !(value is Nan) ==> (exactly(470) * t.power(near(9885, 10_000), rate)).at_most(value)
        }),
{
    lemma_one();
    lemma_whole_place(470);
    let power = t.power(near(9885, 10_000), rate);
    lemma_multiply(exactly(470), power);
    let timed = exactly(470) * power;
    let hard = hard_timing_of(score, t, rate);
    lemma_add_from(exactly(1), exactly(1), hard);
    lemma_multiply_from(timed, timed, exactly(1) + hard, exactly(1));
    lemma_proper(exactly(470), power);
    lemma_times_one(timed);
    let a = timed * (exactly(1) + hard);
    lemma_near_place(1075, 1000);
    lemma_near_places(1, 1, 1075, 1000);
    lemma_multiply_from(a, timed, near(1075, 1000), exactly(1));
    let b = if score.mods.hd && !score.attrs.is_convert {
        a * near(1075, 1000)
    } else {
        a
    };
    let long = long_timing_of(difficult_hits);
    lemma_add_from(exactly(1), exactly(1), long);
    lemma_multiply_from(b, timed, exactly(1) + long, exactly(1));
    let c = b * (exactly(1) + long);
    let bonus = near(115, 100).lesser(
        t.power(exactly(score.state.hitresults.total()) / exactly(1500), near(3, 10)),
    );
    lemma_near_place(115, 100);
    assert(proper(bonus)) by {
        reveal(Value::lesser);
    }
    lemma_proper(near(105, 100), bonus);
    let seen = exactly(1).greater(near(105, 100) * bonus);
    assert(from_on(seen, exactly(1))) by {
        reveal(Value::greater);
        if !((near(105, 100) * bonus) is Nan) {
            lemma_order(exactly(1), near(105, 100) * bonus);
        }
    }
    lemma_multiply_from(c, timed, seen, exactly(1));
    let value = score.compute_accuracy_value_of(t, difficult_hits, Some(rate));
    if !(value is Nan) {
        lemma_order(timed, value);
    }
}

/// What a score is worth in all is at least its difficulty and at least its accuracy,
/// each of which the score is given somewhat more for than it is worth.
pub proof fn law_scores_are_worth_their_parts(score: TaikoPerformanceCalculator, t: Table)
    requires
        ({
            let rate = score.unstable_rate_of(t);
            let hits = exactly(score.state.hitresults.total()) * score.attrs.consistency_factor@;
            let a = score.compute_difficulty_value_of(t, hits, rate);
            let b = score.compute_accuracy_value_of(t, hits, rate);
            number(a) && 0 <= place(a) && number(b) && 0 <= place(b)
        }),
    ensures
        ({
            let rate = score.unstable_rate_of(t);
            let hits = exactly(score.state.hitresults.total()) * score.attrs.consistency_factor@;
            let (difficulty, accuracy, all) = score.rated_of(t);
            &&& score.compute_difficulty_value_of(t, hits, rate).at_most(difficulty)
            &&& score.compute_accuracy_value_of(t, hits, rate).at_most(accuracy)
            &&& difficulty.at_most(all) && accuracy.at_most(all)
        }),
{
    lemma_one();
    let rate = score.unstable_rate_of(t);
    let hits = exactly(score.state.hitresults.total()) * score.attrs.consistency_factor@;
    let a = score.compute_difficulty_value_of(t, hits, rate);
    let b = score.compute_accuracy_value_of(t, hits, rate);
    lemma_near_place(108, 100);
    lemma_near_place(11, 10);
    lemma_near_places(1, 1, 108, 100);
    lemma_near_places(1, 1, 11, 10);
    lemma_commutes(a, near(108, 100));
    lemma_commutes(b, near(11, 10));
    lemma_factor_order(near(108, 100), a, a);
    lemma_factor_order(near(11, 10), b, b);
    lemma_multiply_from(a, a, near(108, 100), exactly(1));
    lemma_multiply_from(b, b, near(11, 10), exactly(1));
    lemma_times_one(a);
    lemma_times_one(b);
    let (x, y) = (a * near(108, 100), b * near(11, 10));
    lemma_sum(x, y);
    lemma_order(a, x);
    lemma_order(b, y);
    lemma_order(x, x + y);
    lemma_order(y, x + y);
}

/// A score has an unstable rate exactly where it has a Great and the map a window for
/// Greats.
pub proof fn law_greats_have_an_unstable_rate(score: TaikoPerformanceCalculator, t: Table)
    ensures
        score.unstable_rate_of(t) is Some <==> score.state.hitresults.n300 > 0
            && !score.attrs.great_hit_window@.at_most(exactly(0)),
{
}

} // verus!
