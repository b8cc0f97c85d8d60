//! What the nerfs for some maps take, and what Relax counts as misses.
use vstd::arithmetic::power2::pow2;
use vstd::prelude::*;

use crate::order::{
    finite, lemma_dyadic, lemma_greater, lemma_inside, lemma_lesser, lemma_minus,
    lemma_near_place, lemma_near_places, lemma_one, lemma_order, lemma_over, lemma_settle_dyadic,
    lemma_settle_fits, lemma_settle_order, lemma_sum, lemma_times, lemma_times_order,
    lemma_times_share, lemma_whole_place, number, place,
};
use crate::osu::performance::calculator::{OsuPerformanceCalculator, Worth};
use crate::query::Table;
use crate::value::{exactly, near, one_units, Value};

verus! {

/// A product is at least what its factors make at least, in 64ths.
proof fn lemma_product_from(x: Value, y: Value, a: nat, b: nat, c: nat)
    requires
        finite(x) && finite(y),
        a <= 64 && b <= 64 && c <= 64,
        64 * c <= a * b,
        a * pow2(1068) <= place(x),
        b * pow2(1068) <= place(y),
    ensures
        number(x * y),
        c * pow2(1068) <= place(x * y),
{
    lemma_one();
    lemma_settle_dyadic(c as int);
    lemma_times(x, y);
    let (q, u) = (pow2(1068) as int, one_units() as int);
    let (p, r) = (place(x), place(y));
    assert((c * q) * u <= (p * r) * 1) by (nonlinear_arith)
        requires
            64 * c <= a * b,
            a * q <= p,
            b * q <= r,
            u == 64 * q,
            q > 0,
            a >= 0,
            b >= 0,
    {
        assert(c * q * u == (64 * c) * (q * q));
        assert((64 * c) * (q * q) <= (a * b) * (q * q));
        assert((a * b) * (q * q) == (a * q) * (b * q));
        assert((a * q) * (b * q) <= p * r);
    };
    lemma_settle_order(c * q, 1, p * r, one_units());
}

/// What is left of one after a share of up to `c` 64ths, which a distance of up to `a`
/// of them is of `b` and more.
proof fn lemma_left_of_distance(x: Value, y: Value, a: nat, b: nat, c: nat)
    requires
        finite(x) && finite(y),
        0 < b,
        a <= 0x1_0000 && b <= 0x1_0000,
        c <= 64,
        a * 64 <= c * b,
        0 <= place(x) <= a * pow2(1068),
        b * pow2(1068) <= place(y),
    ensures
        ({
            let left = exactly(1) - (x / y).lesser(exactly(1));
            finite(left) && (64 - c) * pow2(1068) <= place(left) <= one_units()
        }),
{
    lemma_one();
    lemma_settle_dyadic(c as int);
    lemma_settle_dyadic(64 - c);
    let (q, u) = (pow2(1068) as int, one_units() as int);
    let (p, r) = (place(x), place(y));
    assert(0 < b * q) by (nonlinear_arith)
        requires
            0 < b,
            0 < q,
    ;
    lemma_over(x, y);
    assert((p * u) * 1 <= (c * q) * r) by (nonlinear_arith)
        requires
            0 <= p <= a * q,
            b * q <= r,
            a * 64 <= c * b,
            u == 64 * q,
            q > 0,
            c >= 0,
    {
        assert(p * u <= (a * q) * (64 * q));
        assert((a * q) * (64 * q) == (a * 64) * (q * q));
        assert((a * 64) * (q * q) <= (c * b) * (q * q));
        assert((c * b) * (q * q) == (c * q) * (b * q));
        assert((c * q) * (b * q) <= (c * q) * r);
    };
    lemma_settle_order(p * u, r as nat, c * q, 1);
    let share = (x / y).lesser(exactly(1));
    lemma_lesser(x / y, exactly(1));
    lemma_inside(exactly(1));
    lemma_inside(share);
    lemma_minus(exactly(1), share);
    assert((64 - c) * q == 64 * q - c * q) by (nonlinear_arith);
    lemma_settle_order((64 - c) * q, 1, u - place(share), 1);
    lemma_settle_fits(exactly(1));
    lemma_settle_order(u - place(share), 1, u, 1);
    assert(0 <= (64 - c) * q) by (nonlinear_arith)
        requires
            c <= 64,
            q > 0,
    ;
    lemma_inside(exactly(1) - share);
}

/// What is left of one after `n` 64ths and more, and what that leaves of a number.
proof fn lemma_taken_from(x: Value, y: Value, n: nat)
    requires
        finite(x) && finite(y),
        0 <= place(x),
        n <= 64,
        n * pow2(1068) <= place(y) <= one_units(),
    ensures
        (x * (exactly(1) - y)).at_most(x * near((64 - n) as nat, 64)),
        finite(x * (exactly(1) - y)),
        0 <= place(x * (exactly(1) - y)) <= place(x),
{
    lemma_one();
    lemma_settle_dyadic(64 - n);
    lemma_dyadic((64 - n) as nat);
    let (q, u) = (pow2(1068) as int, one_units() as int);
    lemma_minus(exactly(1), y);
    assert((64 - n) * q == 64 * q - n * q) by (nonlinear_arith);
    lemma_settle_order(u - place(y), 1, (64 - n) * q, 1);
    lemma_settle_fits(exactly(0));
    lemma_settle_order(0, 1, u - place(y), 1);
    let left = exactly(1) - y;
    assert((64 - n) * q <= u) by (nonlinear_arith)
        requires
            u == 64 * q,
            n >= 0,
            q > 0,
    ;
    lemma_inside(exactly(1));
    lemma_inside(left);
    lemma_times_share(x, left);
    lemma_times_share(x, near((64 - n) as nat, 64));
    lemma_times_order(x, left, x, near((64 - n) as nat, 64));
    lemma_order(x * left, x * near((64 - n) as nat, 64));
}

/// Lenient timing costs: up to OD 6 a fifth of accuracy nearly, without Relax.
pub proof fn law_lenient_timing_costs_accuracy(score: OsuPerformanceCalculator, w: Worth<Value>)
    requires
        !score.mods.rx,
        finite(score.attrs.od@),
        exactly(0).at_most(score.attrs.od@),
        score.attrs.od@.at_most(exactly(6)),
        finite(w.acc),
        exactly(0).at_most(w.acc),
    ensures
        score.map_nerfs_of(w).acc.at_most(w.acc * near(52, 64)),
{
    lemma_one();
    let u = one_units();
    let od = score.attrs.od@;
    lemma_whole_place(3);
    lemma_whole_place(6);
    lemma_whole_place(9);
    lemma_order(exactly(0), od);
    lemma_order(od, exactly(6));
    lemma_order(od, exactly(9));
    lemma_order(exactly(0), w.acc);
    lemma_minus(exactly(9), od);
    lemma_settle_fits(exactly(3));
    lemma_settle_order((3 * u) as int, 1, 9 * u - place(od), 1);
    let lost = (exactly(9) - od).lesser(exactly(3));
    lemma_lesser(exactly(9) - od, exactly(3));
    lemma_near_place(73, 1000);
    lemma_near_places(4, 64, 73, 1000);
    lemma_near_places(73, 1000, 5, 64);
    lemma_dyadic(4);
    lemma_dyadic(5);
    lemma_settle_dyadic(12);
    lemma_settle_dyadic(15);
    let (q, p) = (pow2(1068) as int, place(near(73, 1000)));
    lemma_inside(exactly(3));
    lemma_inside(lost);
    lemma_times(near(73, 1000), lost);
    assert((12 * q) * u <= (p * (3 * u)) * 1 && (p * (3 * u)) * 1 <= (15 * q) * u)
        by (nonlinear_arith)
        requires
            4 * q <= p <= 5 * q,
            u > 0,
    ;
    lemma_settle_order(12 * q, 1, p * (3 * u), u);
    lemma_settle_order(p * (3 * u), u, 15 * q, 1);
    lemma_inside(near(73, 1000) * lost);
    lemma_taken_from(w.acc, near(73, 1000) * lost, 12);
}

/// Where a magnitude stands.
proof fn lemma_absolute(x: Value)
    requires
        finite(x),
    ensures
        finite(x.absolute()),
        place(x.absolute()) == if place(x) < 0 {
            -place(x)
        } else {
            place(x)
        },
{
    reveal(Value::absolute);
}

/// How far apart two numbers are, in 64ths.
proof fn lemma_apart(x: Value, y: Value, d: nat)
    requires
        finite(x) && finite(y),
        d <= 64,
        -(d * pow2(1068)) <= place(x) - place(y) <= d * pow2(1068),
    ensures
        finite((x - y).absolute()),
        0 <= place((x - y).absolute()) <= d * pow2(1068),
{
    lemma_one();
    let q = pow2(1068) as int;
    lemma_settle_dyadic(d as int);
    lemma_settle_dyadic(-(d as int));
    assert((-(d as int)) * q == -(d * q)) by (nonlinear_arith);
    lemma_minus(x, y);
    lemma_settle_order(place(x) - place(y), 1, d * q, 1);
    lemma_settle_order((-(d as int)) * q, 1, place(x) - place(y), 1);
    lemma_dyadic(d);
    lemma_inside(near(d, 64));
    lemma_inside(x - y);
    lemma_absolute(x - y);
}

/// Approach rates round 10.3 cost a 64th of aim and more, without Relax, and small
/// circles at a middling tempo three of them.
pub proof fn law_easy_reading_costs_aim(score: OsuPerformanceCalculator, w: Worth<Value>)
    requires
        finite(score.attrs.ar@),
        finite(score.attrs.cs@),
        finite(score.attrs.median_delta_time@),
        finite(w.aim),
        exactly(0).at_most(w.aim),
    ensures
        ({
            let (ar, cs) = (score.attrs.ar@, score.attrs.cs@);
            let md = score.attrs.median_delta_time@;
            let aim = score.map_nerfs_of(w).aim;
            let read = !score.mods.rx && near(656, 64).at_most(ar) && ar.at_most(near(662, 64));
            let small = near(336, 64).at_most(cs) && cs.at_most(near(368, 64)) && exactly(
                200,
            ).at_most(md) && md.at_most(exactly(215));
            &&& read && exactly(250).below(md) ==> aim.at_most(w.aim * near(63, 64))
            &&& small && score.mods.rx ==> aim.at_most(w.aim * near(61, 64))
        }),
{
    lemma_one();
    let (u, q) = (one_units(), pow2(1068) as int);
    let (ar, cs) = (score.attrs.ar@, score.attrs.cs@);
    let md = score.attrs.median_delta_time@;
    lemma_order(exactly(0), w.aim);
    lemma_whole_place(25);
    lemma_whole_place(145);
    lemma_whole_place(176);
    lemma_whole_place(200);
    lemma_whole_place(215);
    lemma_whole_place(250);
    lemma_whole_place(30_000);
    lemma_dyadic(656);
    lemma_dyadic(662);
    lemma_dyadic(336);
    lemma_dyadic(368);
    lemma_order(near(656, 64), ar);
    lemma_order(ar, near(662, 64));
    lemma_order(near(336, 64), cs);
    lemma_order(cs, near(368, 64));
    lemma_order(exactly(200), md);
    lemma_order(md, exactly(215));
    lemma_order(exactly(250), md);
    lemma_order(md, exactly(250));
    lemma_order(exactly(0), md);
    lemma_order(exactly(176), md);
    lemma_bounds();
    lemma_order(near(101, 10), ar);
    lemma_order(ar, near(105, 10));
    lemma_order(near(46, 10), cs);
    lemma_order(cs, near(64, 10));
    if !score.mods.rx && 656 * q <= place(ar) <= 662 * q && 250 * u < place(md) {
        lemma_apart(ar, near(103, 10), 4);
        let off = (ar - near(103, 10)).absolute();
        lemma_left_of_distance(off, near(2, 10), 4, 12, 22);
        let share = exactly(1) - (off / near(2, 10)).lesser(exactly(1));
        lemma_product_from(near(6, 100), share, 3, 42, 1);
        lemma_times_share(near(6, 100), share);
        lemma_taken_from(w.aim, near(6, 100) * share, 1);
    }
    if score.mods.rx && 336 * q <= place(cs) <= 368 * q && 200 * u <= place(md) <= 215 * u {
        lemma_apart(cs, near(55, 10), 16);
        let off = (cs - near(55, 10)).absolute();
        lemma_left_of_distance(off, near(9, 10), 16, 57, 18);
        let cs_t = exactly(1) - (off / near(9, 10)).lesser(exactly(1));
        lemma_tempo(md);
        let away = (exactly(30_000) / md - exactly(145)).absolute();
        assert(25 * u == 1600 * q);
        lemma_left_of_distance(away, exactly(25), 384, 1600, 16);
        let bpm_t = exactly(1) - (away / exactly(25)).lesser(exactly(1));
        lemma_product_from(near(10, 100), cs_t, 6, 46, 4);
        lemma_times_share(near(10, 100), cs_t);
        lemma_product_from(near(10, 100) * cs_t, bpm_t, 4, 48, 3);
        lemma_times_share(near(10, 100) * cs_t, bpm_t);
        lemma_taken_from(w.aim, near(10, 100) * cs_t * bpm_t, 3);
    }
}

/// Where the bounds of the nerfs stand.
proof fn lemma_bounds()
    ensures
        finite(near(101, 10)) && finite(near(103, 10)) && finite(near(105, 10)),
        finite(near(2, 10)) && finite(near(9, 10)) && finite(near(55, 10)),
        finite(near(46, 10)) && finite(near(64, 10)),
        finite(near(6, 100)) && finite(near(10, 100)),
        ({
            let q = pow2(1068) as int;
            &&& place(near(101, 10)) <= 647 * q
            &&& 659 * q <= place(near(103, 10)) <= 660 * q
            &&& 672 * q <= place(near(105, 10))
            &&& 12 * q <= place(near(2, 10))
            &&& 57 * q <= place(near(9, 10))
            &&& place(near(55, 10)) == 352 * q
            &&& place(near(46, 10)) <= 295 * q
            &&& 409 * q <= place(near(64, 10))
            &&& 3 * q <= place(near(6, 100)) <= 64 * q
            &&& 6 * q <= place(near(10, 100)) <= 64 * q
        }),
{
    lemma_near_place(101, 10);
    lemma_near_place(103, 10);
    lemma_near_place(105, 10);
    lemma_near_place(2, 10);
    lemma_near_place(9, 10);
    lemma_near_place(55, 10);
    lemma_near_place(46, 10);
    lemma_near_place(64, 10);
    lemma_near_place(6, 100);
    lemma_near_place(10, 100);
    lemma_near_places(101, 10, 647, 64);
    lemma_near_places(659, 64, 103, 10);
    lemma_near_places(103, 10, 660, 64);
    lemma_near_places(672, 64, 105, 10);
    lemma_near_places(12, 64, 2, 10);
    lemma_near_places(57, 64, 9, 10);
    lemma_near_places(352, 64, 55, 10);
    lemma_near_places(55, 10, 352, 64);
    lemma_near_places(46, 10, 295, 64);
    lemma_near_places(409, 64, 64, 10);
    lemma_near_places(3, 64, 6, 100);
    lemma_near_places(6, 100, 64, 64);
    lemma_near_places(6, 64, 10, 100);
    lemma_near_places(10, 100, 64, 64);
    lemma_dyadic(647);
    lemma_dyadic(659);
    lemma_dyadic(660);
    lemma_dyadic(672);
    lemma_dyadic(12);
    lemma_dyadic(57);
    lemma_dyadic(352);
    lemma_dyadic(295);
    lemma_dyadic(409);
    lemma_dyadic(3);
    lemma_dyadic(6);
    lemma_dyadic(64);
}

/// A time between objects from 200 to 215 ms is a tempo that is up to six from 145.
proof fn lemma_tempo(md: Value)
    requires
        finite(md),
        200 * one_units() <= place(md) <= 215 * one_units(),
    ensures
        ({
            let away = (exactly(30_000) / md - exactly(145)).absolute();
            finite(away) && 0 <= place(away) <= 384 * pow2(1068)
        }),
{
    lemma_one();
    let (u, q) = (one_units(), pow2(1068) as int);
    lemma_dyadic(1);
    lemma_whole_place(6);
    lemma_whole_place(139);
    lemma_whole_place(145);
    lemma_whole_place(151);
    lemma_whole_place(30_000);
    lemma_over(exactly(30_000), md);
    let p = place(md);
    let n = ((30_000 * u) * u) as int;
    assert((139 * u) * p <= n * 1 && n * 1 <= (151 * u) * p) by (nonlinear_arith)
        requires
            200 * u <= p <= 215 * u,
            n == (30_000 * u) * u,
            u > 0,
    ;
    lemma_settle_fits(exactly(139));
    lemma_settle_fits(exactly(151));
    lemma_settle_order((139 * u) as int, 1, n, p as nat);
    lemma_settle_order(n, p as nat, (151 * u) as int, 1);
    let bpm = exactly(30_000) / md;
    lemma_inside(exactly(151));
    lemma_inside(bpm);
    lemma_minus(bpm, exactly(145));
    lemma_settle_fits(exactly(6));
    crate::order::lemma_negated(exactly(6));
    lemma_settle_fits(exactly(6).negated());
    lemma_settle_order(place(bpm) - 145 * u, 1, (6 * u) as int, 1);
    lemma_settle_order(-(6 * u), 1, place(bpm) - 145 * u, 1);
    lemma_inside(exactly(6));
    lemma_inside(bpm - exactly(145));
    lemma_absolute(bpm - exactly(145));
    assert(6 * u == 384 * q);
}

/// Relax counts Oks and Mehs as misses: on a map without timing each of them is one, and
/// up to OD 6 an Ok is three eighths of one and more, as far as the score has so many.
pub proof fn law_relax_counts_oks_and_mehs(
    score: OsuPerformanceCalculator,
    t: Table,
    estimated: Value,
)
    requires
        score.mods.rx,
        number(estimated),
        finite(score.attrs.od@),
        score.attrs.od@.at_most(exactly(6)),
        score.state.hitresults.total() <= u32::MAX,
        crate::order::proper(t.power(score.attrs.od@ / near(1333, 100), exactly(5))),
    ensures
        ({
            let h = score.state.hitresults;
            let r = score.counted_misses_of(t, estimated);
            let some = (exactly(h.n100 as nat) * near(24, 64)).lesser(score.total_hits_of());
            &&& !(r is Nan) ==> some.at_most(r)
            &&& score.attrs.od@.at_most(exactly(0)) ==> exactly((h.n100 + h.n50) as nat).at_most(r)
        }),
{
    lemma_one();
    let h = score.state.hitresults;
    let od = score.attrs.od@;
    let total = score.total_hits_of();
    let (u, q) = (one_units(), pow2(1068) as int);
    lemma_whole_place(6);
    lemma_whole_place(h.total());
    lemma_whole_place(h.misses as nat);
    lemma_whole_place(h.n100 as nat);
    lemma_whole_place(h.n50 as nat);
    let both = (h.n100 + h.n50) as nat;
    lemma_whole_place(both);
    assert(h.misses * u >= 0 && h.n100 * u >= 0 && h.n50 * u >= 0 && h.total() * u >= 0 && both * u
        == h.n100 * u + h.n50 * u && both * u <= h.total() * u) by (nonlinear_arith)
        requires
            both == h.n100 + h.n50,
            both <= h.total(),
            u > 0,
    ;
    lemma_order(od, exactly(6));
    lemma_order(od, exactly(0));
    lemma_order(exactly(0), od);
    let known = estimated.greater(exactly(h.misses as nat));
    lemma_greater(estimated, exactly(h.misses as nat));
    let held = known.lesser(total);
    lemma_lesser(known, total);
    lemma_inside(total);
    lemma_inside(held);
    let (oks, mehs) = (exactly(h.n100 as nat), exactly(h.n50 as nat));
    lemma_dyadic(24);
    let some = (oks * near(24, 64)).lesser(total);
    lemma_times_share(oks, near(24, 64));
    lemma_lesser(oks * near(24, 64), total);
    let r = score.counted_misses_of(t, estimated);
    if place(od) <= 0 {
        crate::order::lemma_times_one(oks);
        crate::order::lemma_times_one(mehs);
        lemma_sum(held, oks);
        lemma_sum(held + oks, mehs);
        lemma_total_of(held, oks, mehs, both);
        lemma_lesser(held + oks + mehs, total);
        lemma_order(exactly(both), r);
        lemma_order(some, r);
    } else {
        lemma_ok_part(od);
        let n100_mult = near(75, 100) * (exactly(1) - od / near(1333, 100)).greater(exactly(0));
        let n50_mult = (exactly(1) - t.power(od / near(1333, 100), exactly(5))).greater(
            exactly(0),
        );
        lemma_times_share(oks, n100_mult);
        lemma_times_order(oks, near(24, 64), oks, n100_mult);
        lemma_sum(held, oks * n100_mult);
        let sum = held + oks * n100_mult;
        lemma_meh_part(t.power(od / near(1333, 100), exactly(5)), mehs, sum, total, some);
    }
}

/// What Oks and Mehs add up to.
proof fn lemma_total_of(held: Value, oks: Value, mehs: Value, both: nat)
    requires
        both <= u32::MAX * 2,
        number(held) && finite(oks) && finite(mehs),
        0 <= place(held) && 0 <= place(oks) && 0 <= place(mehs),
        place(oks) + place(mehs) == both * one_units(),
    ensures
        number(held + oks + mehs),
        both * one_units() <= place(held + oks + mehs),
{
    lemma_one();
    lemma_whole_place(both);
    lemma_sum(held, oks);
    let sum = held + oks;
    lemma_sum(sum, mehs);
    lemma_inside(sum);
    lemma_inside(sum + mehs);
    lemma_inside(exactly(both));
    if finite(sum) {
        crate::order::lemma_plus(sum, mehs);
        lemma_settle_fits(exactly(both));
        lemma_settle_order((both * one_units()) as int, 1, place(sum) + place(mehs), 1);
    }
}

/// Up to OD 6 an Ok is three eighths of a miss and more.
proof fn lemma_ok_part(od: Value)
    requires
        finite(od),
        0 < place(od) <= 6 * one_units(),
    ensures
        ({
            let r = near(75, 100) * (exactly(1) - od / near(1333, 100)).greater(exactly(0));
            finite(r) && 24 * pow2(1068) <= place(r) <= one_units()
        }),
{
    lemma_one();
    let (u, q) = (one_units(), pow2(1068) as int);
    lemma_near_place(1333, 100);
    lemma_near_places(853, 64, 1333, 100);
    lemma_dyadic(853);
    lemma_near_place(75, 100);
    lemma_near_places(48, 64, 75, 100);
    lemma_near_places(75, 100, 64, 64);
    lemma_dyadic(48);
    lemma_dyadic(64);
    let share = od / near(1333, 100);
    lemma_over(od, near(1333, 100));
    let (p, r) = (place(od), place(near(1333, 100)));
    lemma_settle_dyadic(30);
    lemma_settle_dyadic(34);
    assert((p * u) * 1 <= (30 * q) * r) by (nonlinear_arith)
        requires
            0 < p <= 6 * u,
            853 * q <= r,
            u == 64 * q,
            q > 0,
    {
        assert(p * u <= (6 * u) * u);
        assert((6 * u) * u == 24576 * (q * q));
        assert((30 * q) * (853 * q) == 25590 * (q * q));
        assert((30 * q) * (853 * q) <= (30 * q) * r);
    };
    lemma_settle_order(p * u, r as nat, 30 * q, 1);
    lemma_dyadic(30);
    lemma_inside(near(30, 64));
    lemma_inside(share);
    lemma_minus(exactly(1), share);
    lemma_settle_order(34 * q, 1, u - place(share), 1);
    lemma_settle_fits(exactly(1));
    lemma_settle_order(u - place(share), 1, u as int, 1);
    let left = exactly(1) - share;
    lemma_greater(left, exactly(0));
    lemma_inside(exactly(1));
    lemma_inside(left);
    lemma_inside(left.greater(exactly(0)));
    lemma_product_from(near(75, 100), left.greater(exactly(0)), 48, 34, 24);
    lemma_times_share(near(75, 100), left.greater(exactly(0)));
}

/// Whatever a Meh is worth, it adds to misses.
proof fn lemma_meh_part(p: Value, mehs: Value, sum: Value, total: Value, some: Value)
    requires
        crate::order::proper(p),
        finite(mehs) && number(sum) && finite(total) && number(some),
        0 <= place(mehs) && 0 <= place(sum),
        place(some) <= place(sum) && place(some) <= place(total),
    ensures
        ({
            let r = (sum + mehs * (exactly(1) - p).greater(exactly(0))).lesser(total);
            !(r is Nan) ==> some.at_most(r)
        }),
{
    lemma_one();
    let left = (exactly(1) - p).greater(exactly(0));
    let r = (sum + mehs * left).lesser(total);
    crate::signs::lemma_minus_proper(exactly(1), p);
    crate::signs::lemma_from_zero(exactly(1) - p);
    crate::signs::lemma_multiply(mehs, left);
    if (mehs * left) is Nan {
        crate::order::lemma_nan(sum, mehs * left);
        reveal(Value::lesser);
        lemma_order(some, total);
    } else {
        lemma_sum(sum, mehs * left);
        lemma_lesser(sum + mehs * left, total);
        lemma_order(some, r);
    }
}

} // verus!
