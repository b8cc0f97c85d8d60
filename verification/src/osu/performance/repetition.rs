//! What repetition costs, and how minutes are rated.
use vstd::arithmetic::power2::pow2;
use vstd::prelude::*;

use crate::order::{
    finite, lemma_clamped, lemma_dyadic, lemma_inside, lemma_near_place, lemma_near_places,
    lemma_one, lemma_order, lemma_over, lemma_over_large, lemma_plus, lemma_settle_dyadic,
    lemma_settle_fits, lemma_settle_order, lemma_sum, lemma_times, lemma_times_share,
    lemma_whole_place, number, place,
};
use crate::osu::difficulty::object::OsuDifficultyObject;
use crate::osu::performance::auto_marathon::{in_minute_of, minute_bpm_of, minute_gaps_of};
use crate::osu::performance::marathon::{local_sr_per_minute_of, peaks_star_of};
use crate::osu::performance::peaks::{minute_of, minutes_of};
use crate::osu::performance::relax_marathon::{
    fullest_of, minute_weight_of, relax_marathon_multiplier_of, repeats_of, weighted_stars_of,
    RelaxDecay,
};
use crate::query::Table;
use crate::signs::lemma_factor_order;
use crate::value::{exactly, near, one_units, Value};

verus! {

/// Whether the powers that the decay after `r` minutes is made of are numbers from zero
/// on, and after the first minute large enough to count.
pub open spec fn decays_some(t: Table, r: nat, p: RelaxDecay) -> bool {
    let (a, b) = (t.power(exactly(r), p.q), t.power(exactly(r) / fullest_of(p), near(65, 100)));
    &&& number(a) && exactly(0).at_most(a)
    &&& number(b) && exactly(0).at_most(b)
    &&& r > 0 ==> near(31, 64).at_most(b)
}

/// After the first of several minutes that are alike, each counts for 61 64ths at most.
proof fn lemma_minute_light(t: Table, r: nat, bpm: Value, p: RelaxDecay)
    requires
        decays_some(t, r, p),
        finite(p.b),
        exactly(0).below(p.b),
        !exactly(400).at_most(bpm),
    ensures
        ({
            let w = minute_weight_of(t, r, bpm, p);
            &&& finite(w) && 0 <= place(w) <= one_units()
            &&& r > 0 ==> place(w) <= 61 * pow2(1068)
        }),
{
    lemma_one();
    let (u, q) = (one_units(), pow2(1068) as int);
    let (a, b) = (t.power(exactly(r), p.q), t.power(exactly(r) / fullest_of(p), near(65, 100)));
    lemma_order(exactly(0), a);
    lemma_order(exactly(0), b);
    lemma_order(exactly(0), p.b);
    lemma_dyadic(31);
    lemma_order(near(31, 64), b);
    lemma_factor_order(p.b, a, a);
    lemma_sum(exactly(1), p.b * a);
    let base = exactly(1) + p.b * a;
    lemma_clamped(b, exactly(0), exactly(1));
    let smooth = b.clamped(exactly(0), exactly(1));
    lemma_near_place(15, 100);
    lemma_near_places(9, 64, 15, 100);
    lemma_near_places(15, 100, 1, 1);
    lemma_dyadic(9);
    lemma_times_share(near(15, 100), smooth);
    let more = near(15, 100) * smooth;
    if r > 0 {
        lemma_times(near(15, 100), smooth);
        let (x, y) = (place(near(15, 100)), place(smooth));
        lemma_settle_dyadic(4);
        assert((4 * q) * u <= (x * y) * 1) by (nonlinear_arith)
            requires
                9 * q <= x,
                31 * q <= y,
                u == 64 * q,
                q > 0,
        {
            assert((4 * q) * u == 256 * (q * q));
            assert((9 * q) * (31 * q) == 279 * (q * q));
            assert((9 * q) * (31 * q) <= x * y);
        };
        lemma_settle_order(4 * q, 1, x * y, u);
    }
    let factor = exactly(1) + more;
    lemma_sum(exactly(1), more);
    lemma_plus(exactly(1), more);
    lemma_whole_place(2);
    lemma_settle_fits(exactly(2));
    lemma_settle_order(u + place(more), 1, (2 * u) as int, 1);
    lemma_inside(exactly(2));
    lemma_inside(factor);
    if r > 0 {
        lemma_settle_dyadic(68);
        lemma_settle_order(68 * q, 1, u + place(more), 1);
    }
    let divisor = base * factor;
    crate::signs::lemma_commutes(base, factor);
    lemma_factor_order(factor, base, base);
    assert(place(factor) <= place(divisor));
    lemma_over_large(exactly(1), divisor);
    if r > 0 {
        lemma_inside(divisor);
        if finite(divisor) {
            lemma_over(exactly(1), divisor);
            lemma_settle_dyadic(61);
            let d = place(divisor);
            assert((u * u) * 1 <= (61 * q) * d) by (nonlinear_arith)
                requires
                    68 * q <= d,
                    u == 64 * q,
                    q > 0,
            {
                assert(u * u == 4096 * (q * q));
                assert((61 * q) * (68 * q) == 4148 * (q * q));
                assert((61 * q) * (68 * q) <= (61 * q) * d);
            };
            lemma_settle_order((u * u) as int, d as nat, 61 * q, 1);
        } else {
            reveal(Value::over);
        }
    }
}

/// What minutes that are alike add up to, in 64ths.
proof fn lemma_alike_stars(
    t: Table,
    local_sr: Seq<Value>,
    local_bpm: Seq<Value>,
    p: RelaxDecay,
    n: nat,
    low: nat,
    high: nat,
    kept: nat,
)
    requires
        0 < n <= local_sr.len(),
        local_sr.len() == local_bpm.len(),
        local_sr.len() <= 0x1_0000,
        low <= high <= 0x1_0000,
        61 * high <= 64 * kept,
        kept <= high,
        finite(p.b),
        exactly(0).below(p.b),
        forall|k: nat| k < local_sr.len() ==> #[trigger] decays_some(t, k, p),
        forall|k: int|
            0 <= k < local_sr.len() ==> {
                &&& finite(#[trigger] local_sr[k])
                &&& low * pow2(1068) <= place(local_sr[k]) <= high * pow2(1068)
            },
        forall|k: int| 0 <= k < local_bpm.len() ==> !exactly(400).at_most(#[trigger] local_bpm[k]),
        forall|k: int|
            0 < k < local_sr.len() ==> (#[trigger] local_sr[k] - local_sr[k - 1]).absolute()
                .at_most(p.tau),
    ensures
        ({
            let (weighted, total) = weighted_stars_of(t, local_sr, local_bpm, p, n);
            let q = pow2(1068) as int;
            &&& finite(weighted) && 0 <= place(weighted) <= (high + kept * (n - 1)) * q
            &&& finite(total) && (n * low) * q <= place(total) <= (n * high) * q
        }),
    decreases n,
{
    lemma_one();
    lemma_dyadic(1);
    let (u, q) = (one_units(), pow2(1068) as int);
    let k = (n - 1) as nat;
    let sr = local_sr[k as int];
    let (weighted, total) = weighted_stars_of(t, local_sr, local_bpm, p, k);
    let r = repeats_of(local_sr, p.tau, k);
    lemma_rows(local_sr, p.tau, k);
    assert(decays_some(t, r, p));
    let bpm = local_bpm[k as int];
    lemma_minute_light(t, r, bpm, p);
    let w = minute_weight_of(t, r, bpm, p);
    assert(0 <= low * q) by (nonlinear_arith)
        requires
            q > 0,
    ;
    lemma_times_share(sr, w);
    let part = sr * w;
    assert(n * high <= 0x1_0000_0000 && k * high <= n * high && kept * k <= high * k && high + kept
        * k <= n * high && n * low <= n * high) by (nonlinear_arith)
        requires
            n <= 0x1_0000,
            high <= 0x1_0000,
            kept <= high,
            low <= high,
            k + 1 == n,
    ;
    lemma_settle_dyadic((n * high) as int);
    lemma_settle_dyadic((n * low) as int);
    lemma_settle_dyadic((high + kept * k) as int);
    lemma_settle_dyadic(kept as int);
    if n > 1 {
        lemma_alike_stars(t, local_sr, local_bpm, p, k, low, high, kept);
        lemma_times(sr, w);
        let (x, y) = (place(sr), place(w));
        assert((x * y) * 1 <= (kept * q) * u) by (nonlinear_arith)
            requires
                0 <= x <= high * q,
                0 <= y <= 61 * q,
                61 * high <= 64 * kept,
                u == 64 * q,
                q > 0,
        {
            assert(x * y <= (high * q) * (61 * q));
            assert((high * q) * (61 * q) == (61 * high) * (q * q));
            assert((61 * high) * (q * q) <= (64 * kept) * (q * q));
            assert((64 * kept) * (q * q) == (kept * q) * u);
        };
        lemma_settle_order(x * y, u, kept * q, 1);
    } else {
        assert(weighted_stars_of(t, local_sr, local_bpm, p, 0) == (exactly(0), exactly(0)));
    }
    let before = if n > 1 {
        high + kept * (k - 1)
    } else {
        0
    };
    assert((high + kept * k) * q >= before * q + place(part)) by {
        if n > 1 {
            assert((high + kept * k) * q == (high + kept * (k - 1)) * q + kept * q)
                by (nonlinear_arith);
        } else {
            assert((high + kept * k) * q == high * q) by (nonlinear_arith)
                requires
                    k == 0,
            ;
        }
    }
    assert(0 * q == 0) by (nonlinear_arith);
    assert((k * low) * q + low * q == (n * low) * q && (k * high) * q + high * q == (n * high) * q)
        by (nonlinear_arith)
        requires
            n == k + 1,
    ;
    lemma_plus(weighted, part);
    lemma_settle_fits(exactly(0));
    lemma_settle_order(place(weighted) + place(part), 1, (high + kept * k) * q, 1);
    lemma_settle_order(0, 1, place(weighted) + place(part), 1);
    lemma_plus(total, sr);
    if n == 1 {
        assert((k * low) * q == 0 && (k * high) * q == 0) by (nonlinear_arith)
            requires
                k == 0,
        ;
    }
    lemma_settle_order(place(total) + place(sr), 1, (n * high) * q, 1);
    lemma_settle_order((n * low) * q, 1, place(total) + place(sr), 1);
    assert(0 <= (n * low) * q && (high + kept * k) * q <= (n * high) * q) by (nonlinear_arith)
        requires
            q > 0,
            high + kept * k <= n * high,
    ;
    lemma_inside(weighted + part);
    lemma_inside(total + sr);
}

/// A row is no longer than the map, and after the first minute it has begun where minutes
/// are alike.
proof fn lemma_rows(local_sr: Seq<Value>, tau: Value, k: nat)
    requires
        k < local_sr.len(),
        forall|k: int|
            0 < k < local_sr.len() ==> (#[trigger] local_sr[k] - local_sr[k - 1]).absolute()
                .at_most(tau),
    ensures
        repeats_of(local_sr, tau, k) == k,
    decreases k,
{
    if k > 0 {
        assert((local_sr[k as int] - local_sr[k - 1]).absolute().at_most(tau));
        lemma_rows(local_sr, tau, (k - 1) as nat);
    }
}

/// Repetition costs under Relax: where all minutes are alike at a tempo that does not
/// soften the decay, with stars between `low` and `high` 64ths, at most `left` of 64
/// parts remain, if each minute after the first counts for 61 of its 64 at most.
pub proof fn law_repeated_minutes_cost_under_relax(
    t: Table,
    local_sr: Seq<Value>,
    local_bpm: Seq<Value>,
    p: RelaxDecay,
    low: nat,
    high: nat,
    kept: nat,
    left: nat,
)
    requires
        2 <= local_sr.len() <= 0x1_0000,
        local_sr.len() == local_bpm.len(),
        0 < low <= high <= 0x1_0000,
        61 * high <= 64 * kept,
        kept <= high,
        left <= 64,
        64 * (high + kept * (local_sr.len() - 1)) <= left * (local_sr.len() * low),
        finite(p.b),
        exactly(0).below(p.b),
        forall|k: nat| k < local_sr.len() ==> #[trigger] decays_some(t, k, p),
        forall|k: int|
            0 <= k < local_sr.len() ==> {
                &&& finite(#[trigger] local_sr[k])
                &&& near(low, 64).at_most(local_sr[k]) && local_sr[k].at_most(near(high, 64))
            },
        forall|k: int| 0 <= k < local_bpm.len() ==> !exactly(400).at_most(#[trigger] local_bpm[k]),
        forall|k: int|
            0 < k < local_sr.len() ==> (#[trigger] local_sr[k] - local_sr[k - 1]).absolute()
                .at_most(p.tau),
    ensures
        relax_marathon_multiplier_of(t, local_sr, local_bpm, p).at_most(near(left, 64)),
{
    lemma_one();
    let n = local_sr.len();
    let (u, q) = (one_units(), pow2(1068) as int);
    lemma_dyadic(low);
    lemma_dyadic(high);
    lemma_dyadic(left);
    assert forall|k: int| 0 <= k < n implies finite(#[trigger] local_sr[k]) && low * q <= place(
        local_sr[k],
    ) <= high * q by {
        lemma_order(near(low, 64), local_sr[k]);
        lemma_order(local_sr[k], near(high, 64));
    }
    lemma_alike_stars(t, local_sr, local_bpm, p, n, low, high, kept);
    let (weighted, total) = weighted_stars_of(t, local_sr, local_bpm, p, n);
    assert(0 < (n * low) * q) by (nonlinear_arith)
        requires
            0 < n,
            0 < low,
            0 < q,
    ;
    lemma_order(exactly(0), total);
    lemma_over(weighted, total);
    let (x, y) = (place(weighted), place(total));
    let (all, some) = (n * low, high + kept * (n - 1));
    assert((x * u) * 1 <= (left * q) * y) by (nonlinear_arith)
        requires
            0 <= x <= some * q,
            all * q <= y,
            64 * some <= left * all,
            u == 64 * q,
            q > 0,
            left >= 0,
    {
        assert(x * u <= (some * q) * (64 * q));
        assert((some * q) * (64 * q) == (64 * some) * (q * q));
        assert((64 * some) * (q * q) <= (left * all) * (q * q));
        assert((left * all) * (q * q) == (left * q) * (all * q));
        assert((left * q) * (all * q) <= (left * q) * y);
    };
    lemma_settle_dyadic(left as int);
    lemma_settle_order(x * u, y as nat, left * q, 1);
    lemma_clamped(weighted / total, exactly(0), exactly(1));
    let r = relax_marathon_multiplier_of(t, local_sr, local_bpm, p);
    lemma_order(r, near(left, 64));
}

/// Every minute of a map is rated as if it were all of it, by its own peaks.
pub proof fn law_minutes_are_rated_alone(t: Table, strains: Seq<Value>, k: nat)
    requires
        k < minutes_of(strains.len()),
    ensures
        local_sr_per_minute_of(t, strains).len() == minutes_of(strains.len()),
        local_sr_per_minute_of(t, minute_of(strains, k)).len() == 1,
        local_sr_per_minute_of(t, strains)[k as int] == local_sr_per_minute_of(
            t,
            minute_of(strains, k),
        )[0],
        strains.len() <= 150 ==> local_sr_per_minute_of(t, strains) == seq![
            peaks_star_of(t, strains),
        ],
        150 * k < strains.len() <= 150 * minutes_of(strains.len()),
{
    let minute = minute_of(strains, k);
    assert(0 < minute.len() <= 150);
    assert(minute_of(minute, 0) =~= minute);
    if strains.len() <= 150 {
        assert(minute_of(strains, 0) =~= strains);
        assert(local_sr_per_minute_of(t, strains) =~= seq![peaks_star_of(t, strains)]);
    }
}

/// The gaps of a minute lie between what the least and the largest make for each.
proof fn lemma_gaps_between(
    objects: Seq<OsuDifficultyObject>,
    gaps: Seq<Value>,
    k: nat,
    n: nat,
    low: nat,
    high: nat,
)
    requires
        n <= objects.len() <= gaps.len(),
        n <= 0x100_0000,
        low <= high <= 0x100_0000,
        forall|i: int|
            0 <= i < objects.len() && in_minute_of((#[trigger] objects[i]).base_start_time@, k)
                ==> finite(gaps[i]) && exactly(low).at_most(gaps[i]) && gaps[i].at_most(
                exactly(high),
            ),
    ensures
        ({
            let (sum, count) = minute_gaps_of(objects, gaps, k, n);
            &&& finite(sum) && count <= n
            &&& (count * low) * one_units() <= place(sum) <= (count * high) * one_units()
            &&& forall|i: int|
                0 <= i < n && in_minute_of((#[trigger] objects[i]).base_start_time@, k) ==> count
                    > 0
        }),
    decreases n,
{
    lemma_one();
    let u = one_units();
    if n == 0 {
        assert((0 * low) * u == 0 && (0 * high) * u == 0) by (nonlinear_arith);
    } else {
        lemma_gaps_between(objects, gaps, k, (n - 1) as nat, low, high);
        let (sum, count) = minute_gaps_of(objects, gaps, k, (n - 1) as nat);
        if in_minute_of(objects[n - 1].base_start_time@, k) {
            let gap = gaps[n - 1];
            lemma_whole_place(low);
            lemma_whole_place(high);
            lemma_order(exactly(low), gap);
            lemma_order(gap, exactly(high));
            let more = count + 1;
            assert(more * low <= more * high && more * high <= 0x1_0000_0000_0000)
                by (nonlinear_arith)
                requires
                    more <= 0x100_0000,
                    low <= high <= 0x100_0000,
            ;
            lemma_whole_place(more * low);
            lemma_whole_place(more * high);
            lemma_settle_fits(exactly(more * low));
            lemma_settle_fits(exactly(more * high));
            assert((more * low) * u == (count * low) * u + low * u && (more * high) * u == (count
                * high) * u + high * u && 0 <= (more * low) * u) by (nonlinear_arith)
                requires
                    more == count + 1,
            ;
            lemma_plus(sum, gap);
            lemma_settle_order(((more * low) * u) as int, 1, place(sum) + place(gap), 1);
            lemma_settle_order(place(sum) + place(gap), 1, ((more * high) * u) as int, 1);
            lemma_inside(exactly(more * high));
            lemma_inside(sum + gap);
        }
    }
}

/// The tempo of a minute is that of its gaps: where they lie between `low` and `high`
/// milliseconds, it lies between `slow` and `fast`, and a minute without objects has none.
pub proof fn law_minutes_have_their_tempo(
    objects: Seq<OsuDifficultyObject>,
    gaps: Seq<Value>,
    k: nat,
    low: nat,
    high: nat,
    slow: nat,
    fast: nat,
)
    requires
        objects.len() <= gaps.len(),
        objects.len() <= 0x100_0000,
        0 < low <= high <= 0x100_0000,
        slow * high <= 30_000,
        30_000 <= fast * low,
        slow <= 0x100_0000 && fast <= 0x100_0000,
        forall|i: int|
            0 <= i < objects.len() && in_minute_of((#[trigger] objects[i]).base_start_time@, k)
                ==> finite(gaps[i]) && exactly(low).at_most(gaps[i]) && gaps[i].at_most(
                exactly(high),
            ),
    ensures
        ({
            let bpm = minute_bpm_of(objects, gaps, k);
            &&& (exists|i: int|
                0 <= i < objects.len() && in_minute_of((#[trigger] objects[i]).base_start_time@, k))
                ==> exactly(slow).at_most(bpm) && bpm.at_most(exactly(fast))
        }),
{
    lemma_one();
    let u = one_units();
    let n = objects.len();
    lemma_gaps_between(objects, gaps, k, n, low, high);
    let (sum, count) = minute_gaps_of(objects, gaps, k, n);
    if count > 0 {
        lemma_whole_place(count);
        lemma_whole_place(low);
        lemma_whole_place(high);
        lemma_whole_place(slow);
        lemma_whole_place(fast);
        lemma_whole_place(30_000);
        assert(count * u > 0 && low * u > 0) by (nonlinear_arith)
            requires
                count > 0,
                low > 0,
                u > 0,
        ;
        let mean = sum / exactly(count);
        lemma_over(sum, exactly(count));
        let x = place(sum);
        assert((low * u) * (count * u) <= (x * u) * 1 && (x * u) * 1 <= (high * u) * (count * u))
            by (nonlinear_arith)
            requires
                (count * low) * u <= x <= (count * high) * u,
                u > 0,
        ;
        lemma_settle_fits(exactly(low));
        lemma_settle_fits(exactly(high));
        lemma_settle_order((low * u) as int, 1, x * u, (count * u) as nat);
        lemma_settle_order(x * u, (count * u) as nat, (high * u) as int, 1);
        lemma_inside(exactly(high));
        lemma_inside(mean);
        lemma_over(exactly(30_000), mean);
        let m = place(mean);
        let a = ((30_000 * u) * u) as int;
        assert((slow * u) * m <= a * 1 && a * 1 <= (fast * u) * m) by (nonlinear_arith)
            requires
                low * u <= m <= high * u,
                slow * high <= 30_000,
                30_000 <= fast * low,
                a == (30_000 * u) * u,
                u > 0,
                slow >= 0,
                fast >= 0,
        {
            assert((slow * u) * m <= (slow * u) * (high * u));
            assert((slow * u) * (high * u) == (slow * high) * (u * u));
            assert((slow * high) * (u * u) <= 30_000 * (u * u));
            assert((fast * u) * (low * u) <= (fast * u) * m);
            assert((fast * u) * (low * u) == (fast * low) * (u * u));
            assert(30_000 * (u * u) <= (fast * low) * (u * u));
            assert((30_000 * u) * u == 30_000 * (u * u));
        };
        lemma_settle_fits(exactly(slow));
        lemma_settle_fits(exactly(fast));
        lemma_settle_order((slow * u) as int, 1, a, m as nat);
        lemma_settle_order(a, m as nat, (fast * u) as int, 1);
        let bpm = minute_bpm_of(objects, gaps, k);
        lemma_order(exactly(slow), bpm);
        lemma_order(bpm, exactly(fast));
    }
}

} // verus!
