//! What repetition costs under Autopilot.
use vstd::arithmetic::power2::pow2;
use vstd::prelude::*;

use crate::order::{
    finite, lemma_clamped, lemma_dyadic, lemma_fraction, lemma_greater, lemma_inside,
    lemma_left_of_one, lemma_lesser, lemma_minus, lemma_near_place, lemma_near_places, lemma_one,
    lemma_order, lemma_over, lemma_over_large, lemma_plus, lemma_settle_dyadic, lemma_settle_fits,
    lemma_settle_order, lemma_share_times, lemma_sum, lemma_times, lemma_times_share,
    lemma_whole_place, number, place,
};
use crate::osu::performance::auto_marathon::{
    aim_heavy_factor_of, autopilot_marathon_multiplier_of, balance_bonus_of, decay_divisor_of,
    kept_share_of, walk_of, AutopilotDecay,
};
use crate::query::Table;
use crate::signs::{lemma_commutes, lemma_factor_order};
use crate::value::{exactly, near, one_units, Value};

verus! {

/// Whether the answers that the decay after `r` minutes at a mean tempo is made of are
/// those of a tempo so low that it is at its fullest.
pub open spec fn decays_some(t: Table, r: nat, average_bpm: Value, p: AutopilotDecay) -> bool {
    let e = t.exp((exactly(360) - average_bpm) * near(1, 100));
    let a = t.power(exactly(r), p.q);
    &&& !exactly(365).below(average_bpm)
    &&& number(e) && exactly(4).at_most(e)
    &&& number(a) && exactly(0).at_most(a)
    &&& r > 0 ==> exactly(1).at_most(a)
}

/// After the first of several minutes at one tempo, each counts for 54 64ths at most.
proof fn lemma_light(t: Table, r: nat, average_bpm: Value, p: AutopilotDecay)
    requires
        decays_some(t, r, average_bpm, p),
        finite(p.b),
        near(5, 100).at_most(p.b),
    ensures
        ({
            let w = exactly(1) / decay_divisor_of(t, r, average_bpm, p);
            &&& finite(w) && 0 <= place(w) <= one_units()
            &&& r > 0 ==> place(w) <= 54 * pow2(1068)
        }),
{
    lemma_one();
    let (u, q) = (one_units(), pow2(1068) as int);
    let e = t.exp((exactly(360) - average_bpm) * near(1, 100));
    let a = t.power(exactly(r), p.q);
    lemma_whole_place(4);
    lemma_order(exactly(4), e);
    lemma_order(exactly(0), a);
    lemma_order(exactly(1), a);
    lemma_near_place(5, 100);
    lemma_near_places(3, 64, 5, 100);
    lemma_dyadic(3);
    lemma_order(near(5, 100), p.b);
    lemma_near_place(3, 10);
    lemma_near_places(3, 10, 1, 1);
    lemma_clamped(e, near(3, 10), exactly(4));
    let base = e.clamped(near(3, 10), exactly(4));
    crate::order::lemma_times_one(base);
    lemma_factor_order(p.b, a, a);
    let x = p.b * a;
    lemma_commutes(x, base);
    lemma_factor_order(base, x, x);
    assert(r > 0 ==> 3 * q <= place(x));
    if 0 < place(x) {
        crate::signs::lemma_large_times(x, base);
    }
    let more = x * base;
    lemma_inside(x);
    if r > 0 {
        lemma_settle_dyadic(12);
        if finite(x) {
            lemma_times(x, base);
            let (a, b) = (place(x), place(base));
            assert((12 * q) * u <= (a * b) * 1) by (nonlinear_arith)
                requires
                    3 * q <= a,
                    b == 4 * u,
                    u > 0,
            ;
            lemma_settle_order(12 * q, 1, a * b, u);
        }
    }
    assert(r > 0 ==> 12 * q <= place(more));
    lemma_sum(exactly(1), more);
    let divisor = exactly(1) + more;
    lemma_over_large(exactly(1), divisor);
    if r > 0 {
        lemma_inside(more);
        lemma_inside(divisor);
        if finite(divisor) {
            assert(finite(more)) by {
                if !finite(more) {
                    reveal(Value::plus);
                }
            }
            lemma_plus(exactly(1), more);
            lemma_settle_dyadic(76);
            lemma_settle_dyadic(54);
            lemma_settle_order(76 * q, 1, u + place(more), 1);
            lemma_over(exactly(1), divisor);
            let d = place(divisor);
            assert((u * u) * 1 <= (54 * q) * d) by (nonlinear_arith)
                requires
                    76 * q <= d,
                    u == 64 * q,
                    q > 0,
            {
                assert(u * u == 4096 * (q * q));
                assert((54 * q) * (76 * q) == 4104 * (q * q));
                assert((54 * q) * (76 * q) <= (54 * q) * d);
            };
            lemma_settle_order((u * u) as int, d as nat, 54 * q, 1);
        } else {
            lemma_settle_dyadic(54);
            reveal(Value::over);
        }
    }
}

/// Hard aim at a low tempo counts for a share.
proof fn lemma_heavy(streak: nat)
    ensures
        finite(aim_heavy_factor_of(streak)),
        0 <= place(aim_heavy_factor_of(streak)) <= one_units(),
{
    lemma_one();
    let n: nat = if streak < 3 {
        streak
    } else {
        3
    };
    lemma_fraction(n, 3);
    let share = exactly(n) / exactly(3);
    lemma_near_place(10, 100);
    lemma_near_place(15, 100);
    lemma_near_place(30, 100);
    lemma_near_places(30, 100, 1, 1);
    lemma_times_share(near(15, 100), share);
    lemma_plus(near(10, 100), near(15, 100) * share);
    lemma_clamped(near(10, 100) + near(15, 100) * share, exactly(0), near(30, 100));
    lemma_left_of_one(
        (near(10, 100) + near(15, 100) * share).clamped(exactly(0), near(30, 100)),
    );
}

/// The bonus for balance lies between one and 70 64ths.
proof fn lemma_bonus(streak: nat)
    requires
        streak <= 0x20_0000_0000_0000,
    ensures
        finite(balance_bonus_of(streak)),
        one_units() <= place(balance_bonus_of(streak)) <= 70 * pow2(1068),
{
    lemma_one();
    let n: nat = if streak > 2 {
        (streak - 2) as nat
    } else {
        0
    };
    lemma_whole_place(n);
    assert(0 <= n * one_units()) by (nonlinear_arith);
    lemma_near_place(1, 100);
    lemma_near_places(1, 100, 1, 1);
    lemma_near_place(108, 100);
    lemma_near_places(1, 1, 108, 100);
    lemma_near_places(108, 100, 70, 64);
    lemma_dyadic(70);
    lemma_share_times(near(1, 100), exactly(n));
    lemma_sum(exactly(1), near(1, 100) * exactly(n));
    lemma_lesser(exactly(1) + near(1, 100) * exactly(n), near(108, 100));
    lemma_inside(near(108, 100));
    lemma_inside(balance_bonus_of(streak));
}

/// Whether a map plays at one low tempo, with stars between
/// `low` and `high` 64ths.
pub open spec fn repetitive(
    t: Table,
    local_sr: Seq<Value>,
    local_bpm: Seq<Value>,
    local_aim: Seq<Value>,
    p: AutopilotDecay,
    low: nat,
    high: nat,
) -> bool {
    &&& local_sr.len() == local_bpm.len() == local_aim.len()
    &&& finite(p.b) && near(5, 100).at_most(p.b)
    &&& forall|k: int|
        0 < k < local_bpm.len() ==> (#[trigger] local_bpm[k] - local_bpm[k - 1]).absolute().at_most(
            p.bpm_tau,
        )
    &&& forall|k: int|
        0 <= k < local_sr.len() ==> {
            &&& finite(#[trigger] local_sr[k])
            &&& near(low, 64).at_most(local_sr[k]) && local_sr[k].at_most(near(high, 64))
        }
    &&& forall|k: nat|
        0 < k <= local_sr.len() ==> {
            let walk = #[trigger] walk_of(t, local_sr, local_bpm, local_aim, p, k);
            decays_some(t, (k - 1) as nat, walk.sum_bpm / exactly(walk.count), p)
        }
}

/// Where the walk over such a map stands.
proof fn lemma_walk(
    t: Table,
    local_sr: Seq<Value>,
    local_bpm: Seq<Value>,
    local_aim: Seq<Value>,
    p: AutopilotDecay,
    n: nat,
    low: nat,
    high: nat,
    kept: nat,
)
    requires
        repetitive(t, local_sr, local_bpm, local_aim, p, low, high),
        0 < n <= local_sr.len() <= 0x1_0000,
        low <= high <= 0x1_0000,
        54 * high <= 64 * kept,
        kept <= high,
    ensures
        ({
            let walk = walk_of(t, local_sr, local_bpm, local_aim, p, n);
            let q = pow2(1068) as int;
            &&& walk.r == n - 1 && walk.balanced_streak <= n
            &&& finite(walk.best_bonus) && 64 * q <= place(walk.best_bonus) <= 70 * q
            &&& finite(walk.weighted) && 0 <= place(walk.weighted) <= (high + kept * (n - 1)) * q
            &&& finite(walk.total) && (n * low) * q <= place(walk.total) <= (n * high) * q
        }),
    decreases n,
{
    lemma_one();
    lemma_dyadic(1);
    lemma_dyadic(low);
    lemma_dyadic(high);
    let (u, q) = (one_units(), pow2(1068) as int);
    let k = (n - 1) as nat;
    let sr = local_sr[k as int];
    lemma_order(near(low, 64), sr);
    lemma_order(sr, near(high, 64));
    let before = walk_of(t, local_sr, local_bpm, local_aim, p, k);
    let walk = walk_of(t, local_sr, local_bpm, local_aim, p, n);
    if n > 1 {
        lemma_walk(t, local_sr, local_bpm, local_aim, p, k, low, high, kept);
        assert((local_bpm[k as int] - local_bpm[k - 1]).absolute().at_most(p.bpm_tau));
    }
    assert(walk.r == k);
    let average = walk.sum_bpm / exactly(walk.count);
    lemma_light(t, k, average, p);
    let lambda = exactly(1) / decay_divisor_of(t, k, average, p);
    lemma_heavy(before.low_bpm_aim_streak + 1);
    lemma_times_share(lambda, aim_heavy_factor_of(before.low_bpm_aim_streak + 1));
    let aim_ratio = if exactly(0).below(sr) {
        local_aim[k as int] / sr
    } else {
        exactly(0)
    };
    let w = if average.at_most(exactly(360)) && near(7, 10).below(aim_ratio) {
        lambda * aim_heavy_factor_of(before.low_bpm_aim_streak + 1)
    } else {
        lambda
    };
    assert(finite(w) && 0 <= place(w) <= place(lambda));
    assert(walk.weighted == before.weighted + sr * w);
    assert(walk.total == before.total + sr);
    lemma_bonus(before.balanced_streak + 1);
    lemma_greater(before.best_bonus, balance_bonus_of(before.balanced_streak + 1));
    lemma_dyadic(70);
    lemma_inside(near(70, 64));
    lemma_inside(before.best_bonus.greater(balance_bonus_of(before.balanced_streak + 1)));
    assert(0 <= low * q) by (nonlinear_arith)
        requires
            q > 0,
    ;
    lemma_times_share(sr, w);
    let part = sr * w;
    assert(n * high <= 0x1_0000_0000 && kept * k <= high * k && high + kept * k <= n * high && n
        * low <= n * high) by (nonlinear_arith)
        requires
            n <= 0x1_0000,
            high <= 0x1_0000,
            kept <= high,
            low <= high,
            k + 1 == n,
    ;
    lemma_settle_dyadic((n * high) as int);
    lemma_settle_dyadic((n * low) as int);
    lemma_settle_dyadic((high + kept * k) as int);
    lemma_settle_dyadic(kept as int);
    if n > 1 {
        lemma_times(sr, w);
        let (x, y) = (place(sr), place(w));
        assert((x * y) * 1 <= (kept * q) * u) by (nonlinear_arith)
            requires
                0 <= x <= high * q,
                0 <= y <= 54 * q,
                54 * high <= 64 * kept,
                u == 64 * q,
                q > 0,
        {
            assert(x * y <= (high * q) * (54 * q));
            assert((high * q) * (54 * q) == (54 * high) * (q * q));
            assert((54 * high) * (q * q) <= (64 * kept) * (q * q));
            assert((64 * kept) * (q * q) == (kept * q) * u);
        };
        lemma_settle_order(x * y, u, kept * q, 1);
        assert((high + kept * k) * q == (high + kept * (k - 1)) * q + kept * q)
            by (nonlinear_arith);
    } else {
        assert((high + kept * k) * q == high * q && (k * low) * q == 0 && (k * high) * q == 0)
            by (nonlinear_arith)
            requires
                k == 0,
        ;
    }
    assert((k * low) * q + low * q == (n * low) * q && (k * high) * q + high * q == (n * high) * q)
        by (nonlinear_arith)
        requires
            n == k + 1,
    ;
    lemma_plus(before.weighted, part);
    lemma_settle_fits(exactly(0));
    lemma_settle_order(place(before.weighted) + place(part), 1, (high + kept * k) * q, 1);
    lemma_settle_order(0, 1, place(before.weighted) + place(part), 1);
    lemma_plus(before.total, sr);
    lemma_settle_order(place(before.total) + place(sr), 1, (n * high) * q, 1);
    lemma_settle_order((n * low) * q, 1, place(before.total) + place(sr), 1);
    assert(0 <= (n * low) * q && (high + kept * k) * q <= (n * high) * q) by (nonlinear_arith)
        requires
            q > 0,
            high + kept * k <= n * high,
    ;
    lemma_inside(walk.weighted);
    lemma_inside(walk.total);
}

/// What is lost stays lost, but for what balance and length give back.
proof fn lemma_lost(
    weighted: Value,
    total: Value,
    bonus: Value,
    n: nat,
    left: nat,
    lost: nat,
    last: nat,
)
    requires
        2 <= n <= 0x1_0000,
        finite(weighted) && finite(total) && finite(bonus),
        0 <= place(weighted),
        0 < place(total),
        one_units() <= place(bonus) <= 70 * pow2(1068),
        left <= 64 && lost <= 64 && last <= 64,
        (place(weighted) * one_units()) <= (left * pow2(1068)) * place(total),
        70 * lost <= 64 * (64 - left),
        64 * (64 - last) <= 57 * lost,
    ensures
        kept_share_of(weighted, total, bonus, n).at_most(near(last, 64)),
{
    lemma_one();
    let (u, q) = (one_units(), pow2(1068) as int);
    lemma_dyadic(last);
    lemma_settle_dyadic(left as int);
    lemma_settle_dyadic(64 - left);
    lemma_settle_dyadic(lost as int);
    lemma_settle_dyadic(64 - lost);
    lemma_settle_dyadic(64 - last);
    lemma_settle_dyadic(last as int);
    lemma_order(exactly(0), total);
    lemma_over(weighted, total);
    lemma_settle_order(place(weighted) * u, place(total) as nat, left * q, 1);
    lemma_clamped(weighted / total, exactly(0), exactly(1));
    let kept = (weighted / total).clamped(exactly(0), exactly(1));
    let loss = exactly(1) - kept;
    lemma_left_of_one(kept);
    lemma_minus(exactly(1), kept);
    assert((64 - left) * q == 64 * q - left * q && (64 - lost) * q == 64 * q - lost * q && (64
        - last) * q == 64 * q - last * q) by (nonlinear_arith);
    lemma_settle_order((64 - left) * q, 1, u - place(kept), 1);
    lemma_order(exactly(1), bonus);
    // What balance gives back leaves `lost`.
    lemma_over_large(loss, bonus);
    lemma_over(loss, bonus);
    let (x, y) = (place(loss), place(bonus));
    assert((lost * q) * y <= (x * u) * 1) by (nonlinear_arith)
        requires
            (64 - left) * q <= x,
            0 < y <= 70 * q,
            70 * lost <= 64 * (64 - left),
            u == 64 * q,
            q > 0,
            lost >= 0,
    {
        assert((lost * q) * y <= (lost * q) * (70 * q));
        assert((lost * q) * (70 * q) == (70 * lost) * (q * q));
        assert((70 * lost) * (q * q) <= (64 * (64 - left)) * (q * q));
        assert((64 * (64 - left)) * (q * q) == ((64 - left) * q) * (64 * q));
        assert(((64 - left) * q) * (64 * q) <= x * u);
    };
    lemma_settle_order(lost * q, 1, x * u, y as nat);
    let shared = loss / bonus;
    lemma_left_of_one(shared);
    lemma_minus(exactly(1), shared);
    lemma_settle_order(u - place(shared), 1, (64 - lost) * q, 1);
    let balanced = if exactly(1).below(bonus) {
        exactly(1) - shared
    } else {
        kept
    };
    assert(lost <= 64 - left) by (nonlinear_arith)
        requires
            70 * lost <= 64 * (64 - left),
    ;
    assert(left * q <= (64 - lost) * q) by (nonlinear_arith)
        requires
            lost <= 64 - left,
            q > 0,
    ;
    assert(finite(balanced) && 0 <= place(balanced) <= (64 - lost) * q);
    assert(64 - last <= lost) by (nonlinear_arith)
        requires
            64 * (64 - last) <= 57 * lost,
    ;
    assert((64 - lost) * q <= last * q) by (nonlinear_arith)
        requires
            64 - last <= lost,
            q > 0,
    ;
    lemma_whole_place(n);
    lemma_whole_place(2);
    lemma_whole_place(8);
    lemma_minus(exactly(n), exactly(2));
    lemma_over(exactly(n) - exactly(2), exactly(8));
    lemma_clamped((exactly(n) - exactly(2)) / exactly(8), exactly(0), exactly(1));
    let softener = ((exactly(n) - exactly(2)) / exactly(8)).clamped(exactly(0), exactly(1));
    lemma_near_place(10, 100);
    lemma_near_places(10, 100, 7, 64);
    lemma_dyadic(7);
    lemma_times_share(near(10, 100), softener);
    let back = near(10, 100) * softener;
    lemma_left_of_one(back);
    lemma_minus(exactly(1), back);
    lemma_settle_dyadic(57);
    lemma_settle_order(57 * q, 1, u - place(back), 1);
    let rest = exactly(1) - balanced;
    lemma_left_of_one(balanced);
    lemma_minus(exactly(1), balanced);
    lemma_settle_order(lost * q, 1, u - place(balanced), 1);
    let stays = rest * (exactly(1) - back);
    lemma_times_share(rest, exactly(1) - back);
    lemma_times(rest, exactly(1) - back);
    let (a, b) = (place(rest), place(exactly(1) - back));
    assert(((64 - last) * q) * u <= (a * b) * 1) by (nonlinear_arith)
        requires
            lost * q <= a,
            57 * q <= b,
            64 * (64 - last) <= 57 * lost,
            u == 64 * q,
            q > 0,
            lost >= 0,
    {
        assert(((64 - last) * q) * u == (64 * (64 - last)) * (q * q));
        assert((64 * (64 - last)) * (q * q) <= (57 * lost) * (q * q));
        assert((57 * lost) * (q * q) == (lost * q) * (57 * q));
        assert((lost * q) * (57 * q) <= a * b);
    };
    lemma_settle_order((64 - last) * q, 1, a * b, u);
    lemma_left_of_one(stays);
    lemma_minus(exactly(1), stays);
    lemma_settle_order(u - place(stays), 1, last * q, 1);
    lemma_order(kept_share_of(weighted, total, bonus, n), near(last, 64));
}

/// Repetition costs under Autopilot: where a map plays at one low tempo, with stars
/// between `low` and `high` 64ths, each minute after the first counts for 54 of its 64 at
/// most, and at most `last` of 64 parts remain. Two minutes of the same stars leave 61.
pub proof fn law_repeated_minutes_cost_under_autopilot(
    t: Table,
    local_sr: Seq<Value>,
    local_bpm: Seq<Value>,
    local_aim: Seq<Value>,
    p: AutopilotDecay,
    low: nat,
    high: nat,
    kept: nat,
    left: nat,
    lost: nat,
    last: nat,
)
    requires
        2 <= local_sr.len() <= 0x1_0000,
        0 < low <= high <= 0x1_0000,
        54 * high <= 64 * kept,
        kept <= high,
        left <= 64 && lost <= 64 && last <= 64,
        64 * (high + kept * (local_sr.len() - 1)) <= left * (local_sr.len() * low),
        70 * lost <= 64 * (64 - left),
        64 * (64 - last) <= 57 * lost,
        repetitive(t, local_sr, local_bpm, local_aim, p, low, high),
    ensures
        autopilot_marathon_multiplier_of(t, local_sr, local_bpm, local_aim, p).at_most(
            near(last, 64),
        ),
{
    lemma_one();
    lemma_dyadic(1);
    let n = local_sr.len();
    let (u, q) = (one_units(), pow2(1068) as int);
    lemma_walk(t, local_sr, local_bpm, local_aim, p, n, low, high, kept);
    let walk = walk_of(t, local_sr, local_bpm, local_aim, p, n);
    assert(0 < (n * low) * q) by (nonlinear_arith)
        requires
            0 < n,
            0 < low,
            0 < q,
    ;
    let (x, y) = (place(walk.weighted), place(walk.total));
    let (all, some) = (n * low, high + kept * (n - 1));
    assert(x * u <= (left * q) * y) by (nonlinear_arith)
        requires
            0 <= x <= some * q,
            all * q <= y,
            64 * some <= left * all,
            u == 64 * q,
            q > 0,
            left >= 0,
    {
        assert(x * u <= (some * q) * (64 * q));
        assert((some * q) * (64 * q) == (64 * some) * (q * q));
        assert((64 * some) * (q * q) <= (left * all) * (q * q));
        assert((left * all) * (q * q) == (left * q) * (all * q));
        assert((left * q) * (all * q) <= (left * q) * y);
    };
    lemma_lost(walk.weighted, walk.total, walk.best_bonus, n, left, lost, last);
}

} // verus!
