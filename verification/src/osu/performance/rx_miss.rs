//! The misses of scores under Relax, weighted by the strain where they fall.
//!
//! Chunks of four notes each have a hardness, in the order of the map. Misses
//! are taken to fall on the hardest chunks that remain. Of those on the hardest
//! tier the first two are softened, since even strong players miss a spike once
//! or twice; one on the easiest tier is softened where it looks unlucky rather
//! than symptomatic.
use vstd::arithmetic::power2::pow2;
use vstd::prelude::*;

use crate::double::Double;
use crate::lists::values;
use crate::operators::{ratio, whole};
use crate::order::{
    finite, lemma_clamped, lemma_exact_product, lemma_fits, lemma_fraction, lemma_greater,
    lemma_inside, lemma_left_of_one, lemma_lesser, lemma_minus, lemma_minus_order, lemma_near_place,
    lemma_near_places, lemma_near_units, lemma_one, lemma_order, lemma_over, lemma_plus,
    lemma_plus_order, lemma_settle_fits, lemma_settle_order, lemma_share_times, lemma_sum,
    lemma_times, lemma_times_one, lemma_times_order, lemma_times_share, lemma_whole_place, place,
    settle,
};
use crate::sorting::{as_places, lemma_order_places, order_of, sort_places};
use crate::value::{exactly, near, one_units, Value};

verus! {

/// The number of Oks or Mehs that can count.
pub open spec fn capped_of(n: u32) -> nat {
    if n < 700_000 {
        n as nat
    } else {
        700_000
    }
}

/// The number of Oks or Mehs that can count.
fn capped(n: u32) -> (r: u64)
    ensures
        r == capped_of(n),
{
    if n < 700_000 {
        n as u64
    } else {
        700_000
    }
}

/// The hardest of a list of chunks, at least zero.
pub open spec fn hardest_of(s: Seq<Value>) -> Value
    decreases s.len(),
{
    if s.len() == 0 {
        exactly(0)
    } else {
        hardest_of(s.drop_last()).greater(s.last())
    }
}

/// The hardest of a list of chunks, at least zero.
fn hardest(list: &[Double]) -> (r: Double)
    ensures
        r@ == hardest_of(values(list@)),
{
    let mut top = whole(0);
    let mut i: usize = 0;
    proof {
        assert(values(list@).take(0) =~= seq![]);
    }
    while i < list.len()
        invariant
            i <= list@.len(),
            top@ == hardest_of(values(list@).take(i as int)),
        decreases list@.len() - i,
    {
        proof {
            assert(values(list@).take(i + 1).drop_last() =~= values(list@).take(i as int));
        }
        top = top.greater(list[i]);
        i = i + 1;
    }
    proof {
        assert(values(list@).take(i as int) =~= values(list@));
    }
    top
}

/// How many misses a number of Oks and Mehs is worth: a quarter and a half each,
/// up to a cap, tapered where there are many Mehs to an Ok.
pub open spec fn count_inflation_of(n100: u32, n50: u32) -> Value {
    if n100 == 0 && n50 == 0 {
        exactly(0)
    } else {
        let c100 = exactly(capped_of(n100));
        let c50 = exactly(capped_of(n50));
        let mehs_per_ok = if n100 > 0 {
            c50 / c100
        } else {
            near(50, 100) * exactly(2)
        };
        let damp = if mehs_per_ok.at_most(near(50, 100)) {
            exactly(1)
        } else {
            (exactly(1) - near(5, 10) * ((mehs_per_ok - near(50, 100)) / near(50, 100)).lesser(
                exactly(1),
            )).greater(near(5, 10))
        };
        (c100 * near(25, 100) + c50 * near(50, 100)) * damp
    }
}

/// How many misses a number of Oks and Mehs is worth: a quarter and a half each,
/// up to a cap, tapered where there are many Mehs to an Ok.
pub fn count_inflation(n100: u32, n50: u32) -> (r: Double)
    ensures
        r@ == count_inflation_of(n100, n50),
{
    if n100 == 0 && n50 == 0 {
        whole(0)
    } else {
        let c100 = whole(capped(n100));
        let c50 = whole(capped(n50));
        let mehs_per_ok = if n100 > 0 {
            c50 / c100
        } else {
            ratio(50, 100) * whole(2)
        };
        let damp = if mehs_per_ok.at_most(ratio(50, 100)) {
            whole(1)
        } else {
            (whole(1) - ratio(5, 10) * ((mehs_per_ok - ratio(50, 100)) / ratio(50, 100)).lesser(
                whole(1),
            )).greater(ratio(5, 10))
        };
        (c100 * ratio(25, 100) + c50 * ratio(50, 100)) * damp
    }
}

/// What one miss counts on a chunk that is `rel` as hard as the hardest one, as
/// miss number `high` on such a chunk: the first two on the hardest chunks less,
/// and one on an easy chunk less where it looks unlucky.
pub open spec fn tier_weight_of(rel: Value, high: nat, unlucky: bool) -> Value {
    if near(70, 100).at_most(rel) {
        if high <= 2 {
            near(45, 100)
        } else {
            exactly(1)
        }
    } else if near(30, 100).at_most(rel) {
        exactly(1)
    } else if unlucky {
        near(40, 100)
    } else {
        exactly(1)
    }
}

/// What one miss counts on a chunk that is `rel` as hard as the hardest one, as
/// miss number `high` on such a chunk: the first two on the hardest chunks less,
/// and one on an easy chunk less where it looks unlucky.
fn tier_weight(rel: Double, high: u32, unlucky: bool) -> (r: Double)
    ensures
        r@ == tier_weight_of(rel@, high as nat, unlucky),
{
    if ratio(70, 100).at_most(rel) {
        if high <= 2 {
            ratio(45, 100)
        } else {
            whole(1)
        }
    } else if ratio(30, 100).at_most(rel) {
        whole(1)
    } else if unlucky {
        ratio(40, 100)
    } else {
        whole(1)
    }
}

/// How much more a miss counts on chunk `idx` of `n`: up to 35% more from 70% of
/// the map on.
pub open spec fn late_factor_of(idx: nat, n: nat) -> Value {
    let pos = if n > 1 {
        exactly(idx) / (exactly(n) - exactly(1))
    } else {
        exactly(0)
    };
    let late_boost = ((pos - near(70, 100)) / near(30, 100)).clamped(exactly(0), exactly(1));
    exactly(1) + late_boost * near(35, 100)
}

/// How much more a miss counts on chunk `idx` of `n`: up to 35% more from 70% of
/// the map on.
fn late_factor(idx: usize, n: usize) -> (r: Double)
    ensures
        r@ == late_factor_of(idx as nat, n as nat),
{
    let pos = if n > 1 {
        whole(idx as u64) / (whole(n as u64) - whole(1))
    } else {
        whole(0)
    };
    let late_boost = ((pos - ratio(70, 100)) / ratio(30, 100)).clamped(whole(0), whole(1));
    whole(1) + late_boost * ratio(35, 100)
}

/// The chunk that miss `k` falls on: the hardest remaining one, in the end
/// always the easiest.
pub open spec fn missed_chunk_of(h: Seq<Value>, k: nat) -> int {
    order_of(h, true)[if k < h.len() {
        k as int
    } else {
        h.len() - 1
    }]
}

/// What the first `n` misses count together, and how many of them fall on the
/// hardest chunks.
pub open spec fn weighted_misses_of(h: Seq<Value>, unlucky: bool, n: nat) -> (Value, nat)
    decreases n,
{
    if n == 0 {
        (exactly(0), 0)
    } else {
        let (weighted, high_before) = weighted_misses_of(h, unlucky, (n - 1) as nat);
        let idx = missed_chunk_of(h, (n - 1) as nat);
        let rel = h[idx] / hardest_of(h);
        let high = if near(70, 100).at_most(rel) {
            high_before + 1
        } else {
            high_before
        };
        (
            weighted + tier_weight_of(rel, high, unlucky) * late_factor_of(idx as nat, h.len()),
            high,
        )
    }
}

/// Whether a play is losing accuracy fast: over a tenth of its hits are not
/// Greats, or its accuracy is below 99%.
pub open spec fn accuracy_drops_of(n300: u32, n100: u32, n50: u32, misses: u32) -> bool {
    let judged = exactly((n300 + n100 + n50 + misses) as nat).greater(exactly(1));
    let acc = exactly((n300 * 300 + n100 * 100 + n50 * 50) as nat) / (judged * exactly(300));
    let non300_rate = exactly((n100 + n50 + misses) as nat) / judged;
    near(10, 100).below(non300_rate) || acc.below(near(99, 100))
}

/// Whether a play is losing accuracy fast.
fn accuracy_drops(n300: u32, n100: u32, n50: u32, misses: u32) -> (r: bool)
    requires
        n300 + n100 + n50 + misses <= u32::MAX,
        n300 * 300 + n100 * 100 + n50 * 50 <= u32::MAX,
    ensures
        r == accuracy_drops_of(n300, n100, n50, misses),
{
    let judged = whole((n300 + n100 + n50 + misses) as u64).greater(whole(1));
    let acc = whole((n300 * 300 + n100 * 100 + n50 * 50) as u64) / (judged * whole(300));
    let non300_rate = whole((n100 + n50 + misses) as u64) / judged;
    ratio(10, 100).below(non300_rate) || acc.below(ratio(99, 100))
}

/// Whether there are misses to place and strain to place them by.
pub open spec fn places_misses_of(h: Seq<Value>, misses: u32) -> bool {
    misses > 0 && h.len() > 0 && !hardest_of(h).at_most(exactly(0))
}

/// The number of misses that a score under Relax is worth: each miss on the
/// hardest remaining chunk, counted by how hard that is, and the Oks and Mehs.
pub open spec fn rx_strain_weighted_misses_of(
    h: Seq<Value>,
    n300: u32,
    n100: u32,
    n50: u32,
    misses: u32,
) -> Value {
    if misses == 0 {
        count_inflation_of(n100, n50)
    } else if !places_misses_of(h, misses) {
        exactly(misses as nat) + count_inflation_of(n100, n50)
    } else {
        let unlucky = misses <= 1 || !accuracy_drops_of(n300, n100, n50, misses);
        weighted_misses_of(h, unlucky, misses as nat).0 + count_inflation_of(n100, n50)
    }
}

/// The number of misses that a score under Relax is worth: each miss on the
/// hardest remaining chunk, counted by how hard that is, and the Oks and Mehs.
pub fn rx_strain_weighted_misses(
    chunk_hardness: &[Double],
    n300: u32,
    n100: u32,
    n50: u32,
    misses: u32,
) -> (r: Double)
    requires
        places_misses_of(values(chunk_hardness@), misses) ==> n300 + n100 + n50 + misses <= u32::MAX
            && n300 * 300 + n100 * 100 + n50 * 50 <= u32::MAX && forall|i: int|
            0 <= i < chunk_hardness@.len() ==> !((#[trigger] chunk_hardness@[i])@ is Nan),
    ensures
        r@ == rx_strain_weighted_misses_of(values(chunk_hardness@), n300, n100, n50, misses),
{
    let count_infl = count_inflation(n100, n50);
    if misses == 0 {
        return count_infl;
    }
    let ghost h = values(chunk_hardness@);
    let chunks_n: usize = chunk_hardness.len();
    let max_strain = hardest(chunk_hardness);
    if chunks_n == 0 || max_strain.at_most(whole(0)) {
        return whole(misses as u64) + count_infl;
    }
    let unlucky: bool = misses <= 1 || !accuracy_drops(n300, n100, n50, misses);
    let order: Vec<usize> = sort_places(chunk_hardness, true);
    let mut high_seen: u32 = 0;
    let mut weighted = whole(0);
    let mut k: u32 = 0;
    while k < misses
        invariant
            k <= misses,
            high_seen <= k,
            h == values(chunk_hardness@),
            chunks_n == h.len(),
            0 < chunks_n,
            max_strain@ == hardest_of(h),
            as_places(order@) == order_of(h, true),
            order@.len() == chunks_n,
            forall|i: int| 0 <= i < order@.len() ==> (#[trigger] order@[i]) < chunks_n,
            (weighted@, high_seen as nat) == weighted_misses_of(h, unlucky, k as nat),
        decreases misses - k,
    {
        let place: usize = if (k as u64) < chunks_n as u64 {
            k as usize
        } else {
            chunks_n - 1
        };
        let idx: usize = order[place];
        proof {
            assert(as_places(order@)[place as int] == idx);
        }
        let rel = chunk_hardness[idx] / max_strain;
        if ratio(70, 100).at_most(rel) {
            high_seen = high_seen + 1;
        }
        weighted = weighted + tier_weight(rel, high_seen, unlucky) * late_factor(idx, chunks_n);
        k = k + 1;
    }
    weighted + count_infl
}

/// The worth of Oks and Mehs is finite and not below zero, at most three quarters
/// of a million.
proof fn lemma_inflation(n100: u32, n50: u32)
    ensures
        finite(count_inflation_of(n100, n50)),
        0 <= place(count_inflation_of(n100, n50)) <= 1_400_000 * one_units(),
{
    lemma_damped(n100, n50);
}

/// Where the worth of Oks and Mehs stands, and how much of it remains at least.
proof fn lemma_damped(n100: u32, n50: u32)
    ensures
        finite(count_inflation_of(n100, n50)),
        0 <= place(count_inflation_of(n100, n50)) <= 1_400_000 * one_units(),
        ({
            let full = exactly(capped_of(n100)) * near(25, 100) + exactly(capped_of(n50)) * near(
                50,
                100,
            );
            &&& count_inflation_of(n100, n50).at_most(full)
            &&& (full * near(5, 10)).at_most(count_inflation_of(n100, n50))
        }),
{
    lemma_one();
    if n100 == 0 && n50 == 0 {
        lemma_near_place(25, 100);
        lemma_near_place(50, 100);
        lemma_near_place(5, 10);
        lemma_near_places(25, 100, 1, 1);
        lemma_near_places(50, 100, 1, 1);
        lemma_near_places(5, 10, 1, 1);
        let (a, b) = (exactly(0) * near(25, 100), exactly(0) * near(50, 100));
        lemma_times_share(exactly(0), near(25, 100));
        lemma_times_share(exactly(0), near(50, 100));
        lemma_plus(a, b);
        lemma_settle_fits(exactly(0));
        lemma_inside(exactly(0));
        lemma_inside(a + b);
        lemma_times_share(a + b, near(5, 10));
        lemma_order(exactly(0), a + b);
        lemma_order((a + b) * near(5, 10), exactly(0));
    }
    if n100 > 0 || n50 > 0 {
        let u = one_units();
        let (c100, c50) = (exactly(capped_of(n100)), exactly(capped_of(n50)));
        lemma_whole_place(capped_of(n100));
        lemma_whole_place(capped_of(n50));
        lemma_whole_place(2);
        lemma_whole_place(700_000);
        lemma_whole_place(1_400_000);
        lemma_near_place(50, 100);
        lemma_near_place(25, 100);
        lemma_near_place(5, 10);
        lemma_near_places(25, 100, 1, 1);
        lemma_near_places(50, 100, 1, 1);
        lemma_near_places(5, 10, 1, 1);
        lemma_near_places(1, 4, 50, 100);
        lemma_near_places(1, 1000, 1, 4);
        lemma_near_place(1, 4);
        lemma_near_place(1, 1000);
        lemma_half();
        let mehs_per_ok = if n100 > 0 {
            c50 / c100
        } else {
            near(50, 100) * exactly(2)
        };
        if n100 > 0 {
            assert(capped_of(n100) * u > 0) by (nonlinear_arith)
                requires
                    capped_of(n100) > 0,
                    u > 0,
            ;
            lemma_over(c50, c100);
        } else {
            lemma_times(near(50, 100), exactly(2));
        }
        let over = (mehs_per_ok - near(50, 100)) / near(50, 100);
        let damp = if mehs_per_ok.at_most(near(50, 100)) {
            exactly(1)
        } else {
            (exactly(1) - near(5, 10) * over.lesser(exactly(1))).greater(near(5, 10))
        };
        if !mehs_per_ok.at_most(near(50, 100)) {
            lemma_order(mehs_per_ok, near(50, 100));
            lemma_minus(mehs_per_ok, near(50, 100));
            lemma_minus_order(near(50, 100), mehs_per_ok, near(50, 100));
            lemma_minus(near(50, 100), near(50, 100));
            lemma_settle_fits(exactly(0));
            lemma_over(mehs_per_ok - near(50, 100), near(50, 100));
            lemma_lesser(over, exactly(1));
            let held = over.lesser(exactly(1));
            lemma_inside(exactly(1));
            lemma_inside(held);
            lemma_times_share(near(5, 10), held);
            lemma_left_of_one(near(5, 10) * held);
            lemma_greater(exactly(1) - near(5, 10) * held, near(5, 10));
            lemma_inside(damp);
        }
        lemma_times_share(c100, near(25, 100));
        lemma_times_share(c50, near(50, 100));
        let a = c100 * near(25, 100);
        let b = c50 * near(50, 100);
        lemma_plus(a, b);
        assert(700_000 * u + 700_000 * u == 1_400_000 * u);
        lemma_settle_fits(exactly(1_400_000));
        lemma_settle_fits(exactly(0));
        assert(capped_of(n100) * u <= 700_000 * u && capped_of(n50) * u <= 700_000 * u)
            by (nonlinear_arith)
            requires
                capped_of(n100) <= 700_000,
                capped_of(n50) <= 700_000,
        ;
        lemma_settle_order(place(a) + place(b), 1, (1_400_000 * u) as int, 1);
        lemma_settle_order(0, 1, place(a) + place(b), 1);
        lemma_inside(exactly(1_400_000));
        lemma_inside(a + b);
        lemma_times_share(a + b, damp);
        lemma_times_share(a + b, near(5, 10));
        lemma_times_order(a + b, near(5, 10), a + b, damp);
        lemma_order((a + b) * damp, a + b);
        lemma_order((a + b) * near(5, 10), (a + b) * damp);
    }
}

/// A half, in two spellings.
proof fn lemma_half()
    ensures
        place(near(50, 100)) > 0,
        place(near(5, 10)) > 0,
{
    lemma_one();
    lemma_near_place(1, 4);
    lemma_near_places(1, 4, 50, 100);
    lemma_near_places(1, 4, 5, 10);
    vstd::arithmetic::power2::lemma2_to64_rest();
    lemma_near_units(1, 4, 54, 0x10_0000_0000_0000);
    vstd::arithmetic::power2::lemma_pow2_pos(1020);
    assert(0x10_0000_0000_0000 * pow2(1020) > 0) by (nonlinear_arith)
        requires
            pow2(1020) > 0,
    ;
}

/// One more miss counts for something, at most two.
proof fn lemma_miss(rel: Value, high: nat, unlucky: bool, idx: nat, n: nat)
    requires
        idx < n <= 0x20_0000_0000_0000,
    ensures
        finite(tier_weight_of(rel, high, unlucky) * late_factor_of(idx, n)),
        0 <= place(tier_weight_of(rel, high, unlucky) * late_factor_of(idx, n)) <= 2 * one_units(),
{
    lemma_one();
    let u = one_units();
    lemma_near_place(45, 100);
    lemma_near_place(40, 100);
    lemma_near_place(35, 100);
    lemma_near_place(70, 100);
    lemma_near_place(30, 100);
    lemma_near_places(45, 100, 1, 1);
    lemma_near_places(40, 100, 1, 1);
    lemma_near_places(35, 100, 1, 1);
    lemma_near_places(1, 4, 30, 100);
    lemma_quarter();
    let pos = if n > 1 {
        exactly(idx) / (exactly(n) - exactly(1))
    } else {
        exactly(0)
    };
    if n > 1 {
        lemma_whole_place(n);
        lemma_whole_place(idx);
        lemma_whole_place((n - 1) as nat);
        lemma_minus(exactly(n), exactly(1));
        lemma_settle_fits(exactly((n - 1) as nat));
        assert(n * u - u == (n - 1) * u) by (nonlinear_arith);
        assert((n - 1) * u > 0) by (nonlinear_arith)
            requires
                n > 1,
                u > 0,
        ;
        lemma_inside(exactly((n - 1) as nat));
        lemma_inside(exactly(n) - exactly(1));
        lemma_over(exactly(idx), exactly(n) - exactly(1));
    }
    lemma_minus(pos, near(70, 100));
    lemma_over(pos - near(70, 100), near(30, 100));
    let late = ((pos - near(70, 100)) / near(30, 100)).clamped(exactly(0), exactly(1));
    lemma_clamped((pos - near(70, 100)) / near(30, 100), exactly(0), exactly(1));
    lemma_times_share(late, near(35, 100));
    let factor = exactly(1) + late * near(35, 100);
    lemma_plus(exactly(1), late * near(35, 100));
    lemma_whole_place(2);
    lemma_settle_fits(exactly(2));
    lemma_settle_fits(exactly(0));
    lemma_settle_order(u + place(late * near(35, 100)), 1, (2 * u) as int, 1);
    lemma_settle_order(0, 1, u + place(late * near(35, 100)), 1);
    lemma_inside(exactly(2));
    lemma_inside(factor);
    let tier = tier_weight_of(rel, high, unlucky);
    lemma_share_times(tier, factor);
}

/// A quarter is more than nothing.
proof fn lemma_quarter()
    ensures
        place(near(1, 4)) > 0,
{
    vstd::arithmetic::power2::lemma2_to64_rest();
    lemma_near_units(1, 4, 54, 0x10_0000_0000_0000);
    vstd::arithmetic::power2::lemma_pow2_pos(1020);
    assert(0x10_0000_0000_0000 * pow2(1020) > 0) by (nonlinear_arith)
        requires
            pow2(1020) > 0,
    ;
}

/// Misses count for something, at most two each.
proof fn lemma_weighted(h: Seq<Value>, unlucky: bool, n: nat)
    requires
        0 < h.len() <= 0x20_0000_0000_0000,
        n <= u32::MAX,
    ensures
        finite(weighted_misses_of(h, unlucky, n).0),
        0 <= place(weighted_misses_of(h, unlucky, n).0) <= 2 * n * one_units(),
    decreases n,
{
    lemma_one();
    if n > 0 {
        let u = one_units();
        let m = (n - 1) as nat;
        lemma_weighted(h, unlucky, m);
        let (weighted, high_before) = weighted_misses_of(h, unlucky, m);
        let idx = missed_chunk_of(h, m);
        lemma_order_places(h, true);
        let rel = h[idx] / hardest_of(h);
        let high = if near(70, 100).at_most(rel) {
            high_before + 1
        } else {
            high_before
        };
        let more = tier_weight_of(rel, high, unlucky) * late_factor_of(idx as nat, h.len());
        lemma_miss(rel, high, unlucky, idx as nat, h.len());
        lemma_plus(weighted, more);
        lemma_whole_place(2 * n);
        lemma_settle_fits(exactly(2 * n));
        lemma_settle_fits(exactly(0));
        assert(2 * m * u + 2 * u == 2 * n * u) by (nonlinear_arith)
            requires
                n == m + 1,
        ;
        lemma_settle_order(place(weighted) + place(more), 1, (2 * n * u) as int, 1);
        lemma_settle_order(0, 1, place(weighted) + place(more), 1);
        lemma_inside(exactly(2 * n));
        lemma_inside(weighted + more);
    }
}

/// The misses that a score is worth are never below zero.
pub proof fn law_misses_are_not_negative(
    h: Seq<Value>,
    n300: u32,
    n100: u32,
    n50: u32,
    misses: u32,
)
    requires
        h.len() <= 0x20_0000_0000_0000,
    ensures
        exactly(0).at_most(rx_strain_weighted_misses_of(h, n300, n100, n50, misses)),
{
    lemma_one();
    let u = one_units();
    let r = rx_strain_weighted_misses_of(h, n300, n100, n50, misses);
    let infl = count_inflation_of(n100, n50);
    lemma_inflation(n100, n50);
    lemma_settle_fits(exactly(0));
    if misses > 0 {
        let first = if places_misses_of(h, misses) {
            let unlucky = misses <= 1 || !accuracy_drops_of(n300, n100, n50, misses);
            lemma_weighted(h, unlucky, misses as nat);
            weighted_misses_of(h, unlucky, misses as nat).0
        } else {
            lemma_whole_place(misses as nat);
            exactly(misses as nat)
        };
        lemma_plus(first, infl);
        lemma_settle_order(0, 1, place(first) + place(infl), 1);
    }
    lemma_order(exactly(0), r);
}

/// A full combo without Oks and Mehs is worth no miss.
pub proof fn law_clean_scores_have_no_misses(h: Seq<Value>, n300: u32)
    ensures
        rx_strain_weighted_misses_of(h, n300, 0, 0, 0) == exactly(0),
{
}

/// What Oks and Mehs are worth is never below zero.
pub proof fn law_inflation_is_not_negative(n100: u32, n50: u32)
    ensures
        exactly(0).at_most(count_inflation_of(n100, n50)),
{
    lemma_one();
    lemma_inflation(n100, n50);
    lemma_order(exactly(0), count_inflation_of(n100, n50));
}

/// Where a miss on one chunk stands: from a quarter to two, and no lower where a miss
/// on an easy chunk does not look unlucky.
proof fn lemma_miss_floor(rel: Value, high: nat, unlucky: bool, idx: nat, n: nat)
    requires
        idx < n <= 0x20_0000_0000_0000,
    ensures
        ({
            let more = tier_weight_of(rel, high, unlucky) * late_factor_of(idx, n);
            let most = tier_weight_of(rel, high, false) * late_factor_of(idx, n);
            place(near(1, 4)) <= place(more) <= place(most)
        }),
{
    lemma_one();
    lemma_miss(rel, high, unlucky, idx, n);
    lemma_late(idx, n);
    lemma_near_place(45, 100);
    lemma_near_place(40, 100);
    lemma_near_place(1, 4);
    lemma_near_places(1, 4, 45, 100);
    lemma_near_places(1, 4, 40, 100);
    lemma_near_places(1, 4, 1, 1);
    lemma_near_places(40, 100, 1, 1);
    let factor = late_factor_of(idx, n);
    let quarter = near(1, 4);
    lemma_times_order(quarter, exactly(1), tier_weight_of(rel, high, unlucky), factor);
    lemma_times_one(quarter);
    lemma_times_order(
        tier_weight_of(rel, high, unlucky),
        factor,
        tier_weight_of(rel, high, false),
        factor,
    );
}

/// A miss counts no less late in a map than early.
proof fn lemma_late(idx: nat, n: nat)
    requires
        idx < n <= 0x20_0000_0000_0000,
    ensures
        finite(late_factor_of(idx, n)),
        one_units() <= place(late_factor_of(idx, n)) <= 2 * one_units(),
{
    lemma_one();
    let u = one_units();
    lemma_near_place(35, 100);
    lemma_near_place(70, 100);
    lemma_near_place(30, 100);
    lemma_near_places(35, 100, 1, 1);
    lemma_near_places(1, 4, 30, 100);
    lemma_quarter();
    let pos = if n > 1 {
        exactly(idx) / (exactly(n) - exactly(1))
    } else {
        exactly(0)
    };
    if n > 1 {
        lemma_whole_place(n);
        lemma_whole_place(idx);
        lemma_whole_place((n - 1) as nat);
        lemma_minus(exactly(n), exactly(1));
        lemma_settle_fits(exactly((n - 1) as nat));
        assert(n * u - u == (n - 1) * u) by (nonlinear_arith);
        assert((n - 1) * u > 0) by (nonlinear_arith)
            requires
                n > 1,
                u > 0,
        ;
        lemma_inside(exactly((n - 1) as nat));
        lemma_inside(exactly(n) - exactly(1));
        lemma_over(exactly(idx), exactly(n) - exactly(1));
    }
    lemma_minus(pos, near(70, 100));
    lemma_over(pos - near(70, 100), near(30, 100));
    let late = ((pos - near(70, 100)) / near(30, 100)).clamped(exactly(0), exactly(1));
    lemma_clamped((pos - near(70, 100)) / near(30, 100), exactly(0), exactly(1));
    lemma_times_share(late, near(35, 100));
    let factor = exactly(1) + late * near(35, 100);
    lemma_plus(exactly(1), late * near(35, 100));
    lemma_whole_place(2);
    lemma_settle_fits(exactly(2));
    lemma_settle_fits(exactly(1));
    lemma_settle_order(u + place(late * near(35, 100)), 1, (2 * u) as int, 1);
    lemma_settle_order(u as int, 1, u + place(late * near(35, 100)), 1);
    lemma_inside(exactly(2));
    lemma_inside(factor);
}

/// A quarter for each of a number of misses.
proof fn lemma_quarters_each(n: nat)
    requires
        n <= u32::MAX,
    ensures
        finite(exactly(n) * near(1, 4)),
        place(exactly(n) * near(1, 4)) == n * place(near(1, 4)),
        settle((n * place(near(1, 4))) as int, 1) == n * place(near(1, 4)),
        place(near(1, 4)) > 0,
        4 * place(near(1, 4)) == one_units(),
{
    lemma_one();
    lemma_quarter();
    vstd::arithmetic::power2::lemma2_to64_rest();
    lemma_near_place(1, 4);
    lemma_near_units(1, 4, 54, 0x10_0000_0000_0000);
    vstd::arithmetic::power2::lemma_pow2_adds(54, 1020);
    vstd::arithmetic::power2::lemma_pow2_adds(52, 1020);
    vstd::arithmetic::power2::lemma_pow2_adds(2, 1072);
    lemma_fits(n, 1072);
    vstd::arithmetic::power2::lemma_pow2_adds(1072, 1026);
    vstd::arithmetic::power2::lemma_pow2_strictly_increases(32, 1026);
    vstd::arithmetic::power2::lemma2_to64();
    let (u, q) = (one_units(), pow2(1072));
    assert(place(near(1, 4)) == q);
    assert(u == 4 * q);
    lemma_whole_place(n);
    lemma_times(exactly(n), near(1, 4));
    vstd::arithmetic::power2::lemma_pow2_pos(1072);
    assert((n * u) * q == (n * q) * u) by (nonlinear_arith);
    assert(n * q < pow2(2098)) by (nonlinear_arith)
        requires
            n <= u32::MAX,
            pow2(2098) == q * pow2(1026),
            pow2(1026) > u32::MAX,
            q > 0,
    ;
    let exact = Value::Finite { neg: false, units: n * q };
    assert(finite(exact));
    lemma_settle_fits(exact);
    lemma_settle_order(((n * u) * q) as int, u, (n * q) as int, 1);
    lemma_settle_order((n * q) as int, 1, ((n * u) * q) as int, u);
    lemma_inside(exact);
    lemma_inside(exactly(n) * near(1, 4));
}

/// Misses count for at least a quarter each, and no less where more of them are
/// placed or fewer look unlucky. How many fall on the hardest chunks is not a
/// matter of luck.
proof fn lemma_weighted_order(h: Seq<Value>, unlucky: bool, worse: bool, m: nat, n: nat)
    requires
        0 < h.len() <= 0x20_0000_0000_0000,
        m <= n <= u32::MAX,
        worse ==> unlucky,
    ensures
        weighted_misses_of(h, unlucky, m).1 == weighted_misses_of(h, worse, m).1,
        place(weighted_misses_of(h, unlucky, m).0) <= place(weighted_misses_of(h, worse, n).0),
        m * place(near(1, 4)) <= place(weighted_misses_of(h, unlucky, m).0),
    decreases n,
{
    lemma_one();
    lemma_weighted(h, unlucky, m);
    lemma_weighted(h, worse, n);
    if n > 0 {
        let k = (n - 1) as nat;
        let idx = missed_chunk_of(h, k);
        lemma_order_places(h, true);
        let rel = h[idx] / hardest_of(h);
        let (before, high_before) = weighted_misses_of(h, worse, k);
        let high = if near(70, 100).at_most(rel) {
            high_before + 1
        } else {
            high_before
        };
        let more = tier_weight_of(rel, high, worse) * late_factor_of(idx as nat, h.len());
        lemma_miss(rel, high, worse, idx as nat, h.len());
        lemma_weighted(h, worse, k);
        if m < n {
            lemma_weighted_order(h, unlucky, worse, m, k);
            lemma_sum(before, more);
        } else {
            lemma_weighted_order(h, unlucky, worse, k, k);
            lemma_weighted(h, unlucky, k);
            let least = tier_weight_of(rel, high, unlucky) * late_factor_of(idx as nat, h.len());
            lemma_miss(rel, high, unlucky, idx as nat, h.len());
            lemma_miss_floor(rel, high, unlucky, idx as nat, h.len());
            let first = weighted_misses_of(h, unlucky, k).0;
            lemma_plus_order(first, least, before, more);
            lemma_plus(first, least);
            lemma_quarters_each(n);
            let q = place(near(1, 4));
            assert(k * q + q == n * q) by (nonlinear_arith)
                requires
                    n == k + 1,
            ;
            lemma_settle_order((n * q) as int, 1, place(first) + place(least), 1);
        }
    } else {
        assert(0 * place(near(1, 4)) == 0);
    }
}

/// A play that loses accuracy fast loses it no slower with more misses.
proof fn lemma_drops_more(n300: u32, n100: u32, n50: u32, few: u32, many: u32)
    requires
        few <= many,
        accuracy_drops_of(n300, n100, n50, few),
    ensures
        accuracy_drops_of(n300, n100, n50, many),
{
    lemma_one();
    let u = one_units();
    let (s, t) = ((n300 + n100 + n50 + few) as nat, (n300 + n100 + n50 + many) as nat);
    let points = (n300 * 300 + n100 * 100 + n50 * 50) as nat;
    assert(points <= 0x20_0000_0000_0000);
    if t == 0 {
    } else {
        let (a, b) = (if s > 1 { s } else { 1 }, t);
        lemma_whole_place(s);
        lemma_whole_place(t);
        lemma_whole_place(1);
        lemma_judged(s);
        lemma_judged(t);
        lemma_exact_product(a, 300);
        lemma_exact_product(b, 300);
        let (w, v) = ((n100 + n50 + few) as nat, (n100 + n50 + many) as nat);
        lemma_fraction(points, a * 300);
        lemma_fraction(points, b * 300);
        lemma_fraction(w, a);
        lemma_fraction(v, b);
        assert((points * u) * (a * 300) <= (points * u) * (b * 300)) by (nonlinear_arith)
            requires
                a <= b,
        ;
        lemma_settle_order((points * u) as int, b * 300, (points * u) as int, a * 300);
        assert((w * u) * b <= (v * u) * a) by (nonlinear_arith)
            requires
                w <= v,
                a <= b,
                b - a <= v - w,
                w <= a,
        ;
        lemma_settle_order((w * u) as int, a, (v * u) as int, b);
        lemma_near_place(10, 100);
        lemma_near_place(99, 100);
        lemma_order(near(10, 100), exactly(w) / exactly(a));
        lemma_order(near(10, 100), exactly(v) / exactly(b));
        lemma_order(exactly(points) / exactly(a * 300), near(99, 100));
        lemma_order(exactly(points) / exactly(b * 300), near(99, 100));
    }
}

/// A number of objects, or one where there are none.
proof fn lemma_judged(s: nat)
    requires
        s <= 0x20_0000_0000_0000,
    ensures
        exactly(s).greater(exactly(1)) == exactly(if s > 1 {
            s
        } else {
            1
        }),
{
    lemma_whole_place(s);
    lemma_whole_place(1);
    let u = one_units();
    lemma_one();
    lemma_order(exactly(s), exactly(1));
    assert(s * u < u <==> s < 1) by (nonlinear_arith)
        requires
            u > 0,
    ;
    reveal(Value::greater);
}

/// A further miss never lowers what the misses of a score are worth.
pub proof fn law_further_misses_only_cost(
    h: Seq<Value>,
    n300: u32,
    n100: u32,
    n50: u32,
    few: u32,
    many: u32,
)
    requires
        h.len() <= 0x20_0000_0000_0000,
        few <= many,
    ensures
        rx_strain_weighted_misses_of(h, n300, n100, n50, few).at_most(
            rx_strain_weighted_misses_of(h, n300, n100, n50, many),
        ),
{
    lemma_one();
    let u = one_units();
    let infl = count_inflation_of(n100, n50);
    lemma_inflation(n100, n50);
    lemma_whole_place(few as nat);
    lemma_whole_place(many as nat);
    assert(few * u <= many * u) by (nonlinear_arith)
        requires
            few <= many,
    ;
    let a = rx_strain_weighted_misses_of(h, n300, n100, n50, few);
    let b = rx_strain_weighted_misses_of(h, n300, n100, n50, many);
    if few > 0 {
        if places_misses_of(h, few) {
            let lucky = few <= 1 || !accuracy_drops_of(n300, n100, n50, few);
            let other = many <= 1 || !accuracy_drops_of(n300, n100, n50, many);
            if other && !lucky {
                lemma_drops_more(n300, n100, n50, few, many);
            }
            lemma_weighted(h, lucky, few as nat);
            lemma_weighted(h, other, many as nat);
            lemma_weighted_order(h, lucky, other, few as nat, many as nat);
            let (x, y) = (
                weighted_misses_of(h, lucky, few as nat).0,
                weighted_misses_of(h, other, many as nat).0,
            );
            lemma_plus_order(x, infl, y, infl);
            lemma_plus(x, infl);
            lemma_plus(y, infl);
        } else {
            lemma_plus_order(exactly(few as nat), infl, exactly(many as nat), infl);
            lemma_plus(exactly(few as nat), infl);
            lemma_plus(exactly(many as nat), infl);
        }
    } else if many > 0 {
        if places_misses_of(h, many) {
            let other = many <= 1 || !accuracy_drops_of(n300, n100, n50, many);
            lemma_weighted(h, other, many as nat);
            lemma_sum(weighted_misses_of(h, other, many as nat).0, infl);
        } else {
            lemma_sum(exactly(many as nat), infl);
        }
    }
    lemma_order(a, b);
}

/// The misses of a score are worth at least what its Oks and Mehs are, and a quarter
/// for each miss on top, and at most two for each.
pub proof fn law_misses_add_to_oks_and_mehs(
    h: Seq<Value>,
    n300: u32,
    n100: u32,
    n50: u32,
    misses: u32,
)
    requires
        h.len() <= 0x20_0000_0000_0000,
    ensures
        ({
            let r = rx_strain_weighted_misses_of(h, n300, n100, n50, misses);
            let n = exactly(misses as nat);
            &&& count_inflation_of(n100, n50).at_most(r)
            &&& (n * near(1, 4) + count_inflation_of(n100, n50)).at_most(r)
            &&& r.at_most(n * exactly(2) + count_inflation_of(n100, n50))
        }),
{
    lemma_one();
    let (u, n) = (one_units(), misses as nat);
    let infl = count_inflation_of(n100, n50);
    let r = rx_strain_weighted_misses_of(h, n300, n100, n50, misses);
    lemma_inflation(n100, n50);
    lemma_quarters_each(n);
    lemma_whole_place(n);
    lemma_whole_place(2);
    lemma_whole_place(2 * n);
    lemma_exact_product(n, 2);
    assert(n * 2 == 2 * n);
    let low = exactly(n) * near(1, 4);
    let high = exactly(n) * exactly(2);
    let q = place(near(1, 4));
    assert(n * q <= n * u <= (2 * n) * u && 2 * n * u == (2 * n) * u && 0 <= n * q)
        by (nonlinear_arith)
        requires
            u == 4 * q,
            q >= 0,
    ;
    let first = if n == 0 {
        exactly(0)
    } else if places_misses_of(h, misses) {
        let unlucky = misses <= 1 || !accuracy_drops_of(n300, n100, n50, misses);
        lemma_weighted(h, unlucky, n);
        lemma_weighted_order(h, unlucky, unlucky, n, n);
        weighted_misses_of(h, unlucky, n).0
    } else {
        exactly(n)
    };
    lemma_plus(first, infl);
    lemma_plus(low, infl);
    lemma_plus(high, infl);
    lemma_plus_order(low, infl, first, infl);
    lemma_plus_order(first, infl, high, infl);
    lemma_sum(first, infl);
    lemma_settle_fits(infl);
    assert(place(r) == place(first + infl));
    lemma_order(infl, r);
    lemma_order(low + infl, r);
    lemma_order(r, high + infl);
}

/// Oks are worth up to a quarter of a miss each and Mehs up to half of one, and at
/// least half of that.
pub proof fn law_oks_and_mehs_are_worth_a_part(n100: u32, n50: u32)
    ensures
        ({
            let full = exactly(capped_of(n100)) * near(25, 100) + exactly(capped_of(n50)) * near(
                50,
                100,
            );
            &&& count_inflation_of(n100, n50).at_most(full)
            &&& (full * near(5, 10)).at_most(count_inflation_of(n100, n50))
        }),
{
    lemma_damped(n100, n50);
}

} // verus!
