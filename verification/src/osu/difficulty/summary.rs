//! What is said of all objects of a map together.
use vstd::prelude::*;

use crate::bits::law_patterns_are_values;
use crate::double::Double;
use crate::lists::{
    average, law_means_lie_between, law_sums_have_their_entries, mean, total, values,
};
use crate::operators::whole;
use crate::order::{
    finite, lemma_fits_double, lemma_inside, lemma_one, lemma_order, lemma_over, lemma_plus,
    lemma_settle_fits, lemma_settle_order, lemma_sum, lemma_whole_place, number, place,
};
use crate::osu::difficulty::object::OsuDifficultyObject;
use crate::osu::performance::peaks::{lemma_positive, positive, positive_of};
use crate::signs::lemma_divide;
use crate::sorting::{
    law_sorted_lists_are_in_order, law_sorting_keeps_the_entries, lemma_contained, sorted,
    sorted_of,
};
use crate::value::{exactly, one_units, Value};

verus! {

/// What the tapping of an object depends on.
#[derive(Clone, Copy, Debug)]
pub struct SpeedObjectData {
    pub delta_time: Double,
    pub pos_x: Double,
    pub pos_y: Double,
}

/// What the tapping of an object depends on.
pub open spec fn speed_data_of(object: OsuDifficultyObject) -> SpeedObjectData {
    SpeedObjectData { delta_time: object.delta_time, pos_x: object.pos_x, pos_y: object.pos_y }
}

/// What the tapping of every object depends on.
pub fn speed_data(objects: &Vec<OsuDifficultyObject>) -> (r: Vec<SpeedObjectData>)
    ensures
        r@ == objects@.map_values(|object: OsuDifficultyObject| speed_data_of(object)),
{
    let mut out: Vec<SpeedObjectData> = Vec::new();
    let mut i: usize = 0;
    while i < objects.len()
        invariant
            i <= objects@.len(),
            out@.len() == i,
            forall|k: int| 0 <= k < i ==> #[trigger] out@[k] == speed_data_of(objects@[k]),
        decreases objects@.len() - i,
    {
        let object = objects[i];
        out.push(
            SpeedObjectData {
                delta_time: object.delta_time,
                pos_x: object.pos_x,
                pos_y: object.pos_y,
            },
        );
        i = i + 1;
    }
    proof {
        assert(out@ =~= objects@.map_values(|object: OsuDifficultyObject| speed_data_of(object)));
    }
    out
}

/// The times since the objects before, held to what can be rated.
pub open spec fn adjusted_times_of(objects: Seq<OsuDifficultyObject>) -> Seq<Value> {
    objects.map_values(|object: OsuDifficultyObject| object.adjusted_delta_time@)
}

/// The times since the objects before, held to what can be rated.
pub fn adjusted_times(objects: &Vec<OsuDifficultyObject>) -> (r: Vec<Double>)
    ensures
        values(r@) == adjusted_times_of(objects@),
        r@.len() == objects@.len(),
{
    let mut out: Vec<Double> = Vec::new();
    let mut i: usize = 0;
    while i < objects.len()
        invariant
            i <= objects@.len(),
            out@.len() == i,
            forall|k: int| 0 <= k < i ==> (#[trigger] out@[k])@ == objects@[k].adjusted_delta_time@,
        decreases objects@.len() - i,
    {
        out.push(objects[i].adjusted_delta_time);
        i = i + 1;
    }
    proof {
        assert(values(out@) =~= adjusted_times_of(objects@));
    }
    out
}

/// The lengths of the jumps.
pub open spec fn jumps_of(objects: Seq<OsuDifficultyObject>) -> Seq<Value> {
    objects.map_values(|object: OsuDifficultyObject| object.lazy_jump_dist@)
}

/// The mean length of the jumps that have one.
pub open spec fn avg_jump_dist_of(objects: Seq<OsuDifficultyObject>) -> Value {
    let jumps = positive_of(jumps_of(objects));
    if jumps.len() > 0 {
        mean(jumps)
    } else {
        exactly(0)
    }
}

/// The mean length of the jumps that have one.
pub fn avg_jump_dist(objects: &Vec<OsuDifficultyObject>) -> (r: Double)
    ensures
        r@ == avg_jump_dist_of(objects@),
{
    let mut dists: Vec<Double> = Vec::new();
    let mut i: usize = 0;
    while i < objects.len()
        invariant
            i <= objects@.len(),
            dists@.len() == i,
            forall|k: int| 0 <= k < i ==> (#[trigger] dists@[k])@ == objects@[k].lazy_jump_dist@,
        decreases objects@.len() - i,
    {
        dists.push(objects[i].lazy_jump_dist);
        i = i + 1;
    }
    proof {
        assert(values(dists@) =~= jumps_of(objects@));
    }
    let jumps = positive(dists.as_slice());
    proof {
        assert(values(jumps@).len() == jumps@.len());
    }
    if jumps.len() > 0 {
        average(&jumps)
    } else {
        whole(0)
    }
}

/// The times since the objects before.
pub open spec fn times_of(objects: Seq<OsuDifficultyObject>) -> Seq<Value> {
    objects.map_values(|object: OsuDifficultyObject| object.delta_time@)
}

/// The median of the positive times between objects, or `otherwise` where there
/// is none.
pub open spec fn median_of(objects: Seq<OsuDifficultyObject>, otherwise: Value) -> Value {
    let deltas = sorted_of(positive_of(times_of(objects)), false);
    let m = deltas.len() as int / 2;
    if deltas.len() == 0 {
        otherwise
    } else if deltas.len() % 2 == 1 {
        deltas[m]
    } else {
        (deltas[m - 1] + deltas[m]) / exactly(2)
    }
}

/// The median of the positive times between objects, or `otherwise` where there
/// is none.
pub fn median(objects: &Vec<OsuDifficultyObject>, otherwise: Double) -> (r: Double)
    ensures
        r@ == median_of(objects@, otherwise@),
{
    let mut times: Vec<Double> = Vec::new();
    let mut i: usize = 0;
    while i < objects.len()
        invariant
            i <= objects@.len(),
            times@.len() == i,
            forall|k: int| 0 <= k < i ==> (#[trigger] times@[k])@ == objects@[k].delta_time@,
        decreases objects@.len() - i,
    {
        times.push(objects[i].delta_time);
        i = i + 1;
    }
    proof {
        assert(values(times@) =~= times_of(objects@));
    }
    let deltas = sorted(positive(times.as_slice()).as_slice(), false);
    let ghost s = values(deltas@);
    if deltas.len() == 0 {
        return otherwise;
    }
    let m: usize = deltas.len() / 2;
    proof {
        assert(s[m as int] == deltas@[m as int]@);
        assert(m > 0 ==> s[m - 1] == deltas@[m - 1]@);
    }
    if deltas.len() % 2 == 1 {
        deltas[m]
    } else {
        (deltas[m - 1] + deltas[m]) / whole(2)
    }
}

/// The positive times between objects from entry `4 * i` on, up to four of them.
pub open spec fn chunk_of(objects: Seq<OsuDifficultyObject>, i: int) -> Seq<Value> {
    let times = positive_of(times_of(objects));
    times.subrange(
        4 * i,
        if 4 * i + 4 < times.len() {
            4 * i + 4
        } else {
            times.len() as int
        },
    )
}

/// The number of chunks of up to four positive times.
pub open spec fn n_chunks_of(objects: Seq<OsuDifficultyObject>) -> nat {
    (positive_of(times_of(objects)).len() + 3) / 4
}

/// One over each number.
pub open spec fn inverses(s: Seq<Value>) -> Seq<Value> {
    s.map_values(|x: Value| exactly(1) / x)
}

/// The hardness of all chunks: the sum of one over each of its times.
pub open spec fn chunk_hardness_of(objects: Seq<OsuDifficultyObject>) -> Seq<Value> {
    Seq::new(n_chunks_of(objects), |i: int| total(inverses(chunk_of(objects, i))))
}

/// The mean of the times of all chunks.
pub open spec fn chunk_avg_delta_of(objects: Seq<OsuDifficultyObject>) -> Seq<Value> {
    Seq::new(n_chunks_of(objects), |i: int| mean(chunk_of(objects, i)))
}

/// One more entry of a list added up.
proof fn lemma_total_push(s: Seq<Value>, x: Value)
    ensures
        total(s.push(x)) == total(s) + x,
        total(inverses(s.push(x))) == total(inverses(s)) + exactly(1) / x,
{
    assert(s.push(x).drop_last() =~= s);
    assert(inverses(s.push(x)).drop_last() =~= inverses(s));
}

/// The hardness of all chunks and the mean time between their notes.
pub fn chunks(objects: &Vec<OsuDifficultyObject>) -> (r: (Vec<Double>, Vec<Double>))
    ensures
        values(r.0@) == chunk_hardness_of(objects@),
        values(r.1@) == chunk_avg_delta_of(objects@),
{
    let ghost all = positive_of(times_of(objects@));
    let ghost mut seen: int = 0;
    let mut hardness_chunks: Vec<Double> = Vec::new();
    let mut avg_delta_chunks: Vec<Double> = Vec::new();
    let mut chunk_hardness = whole(0);
    let mut chunk_delta_sum = whole(0);
    let mut chunk_count: u32 = 0;
    let mut i: usize = 0;
    proof {
        reveal(Seq::filter);
        assert(times_of(objects@).take(0) =~= seq![]);
        assert(all.subrange(0, 0) =~= seq![]);
        assert(inverses(all.subrange(0, 0)) =~= seq![]);
    }
    while i < objects.len()
        invariant
            i <= objects@.len(),
            all == positive_of(times_of(objects@)),
            chunk_count < 4,
            seen == positive_of(times_of(objects@).take(i as int)).len(),
            seen == 4 * hardness_chunks@.len() + chunk_count,
            avg_delta_chunks@.len() == hardness_chunks@.len(),
            seen <= all.len(),
            positive_of(times_of(objects@).take(i as int)) == all.take(seen),
            forall|k: int|
                0 <= k < hardness_chunks@.len() ==> (#[trigger] hardness_chunks@[k])@ == total(
                    inverses(all.subrange(4 * k, 4 * k + 4)),
                ),
            forall|k: int|
                0 <= k < avg_delta_chunks@.len() ==> (#[trigger] avg_delta_chunks@[k])@ == mean(
                    all.subrange(4 * k, 4 * k + 4),
                ),
            chunk_hardness@ == total(
                inverses(all.subrange(4 * hardness_chunks@.len() as int, seen)),
            ),
            chunk_delta_sum@ == total(all.subrange(4 * hardness_chunks@.len() as int, seen)),
        decreases objects@.len() - i,
    {
        let delta = objects[i].delta_time;
        let ghost n = 4 * hardness_chunks@.len() as int;
        proof {
            lemma_next_time(objects@, i as int);
        }
        if whole(0).below(delta) {
            proof {
                assert(positive_of(times_of(objects@).take(i + 1))[seen] == delta@);
                assert(all.take(seen + 1)[seen] == all[seen]);
                lemma_total_push(all.subrange(n, seen), delta@);
                assert(all.subrange(n, seen).push(delta@) =~= all.subrange(n, seen + 1));
                seen = seen + 1;
            }
            chunk_hardness = chunk_hardness + whole(1) / delta;
            chunk_delta_sum = chunk_delta_sum + delta;
            chunk_count = chunk_count + 1;
            if chunk_count == 4 {
                hardness_chunks.push(chunk_hardness);
                avg_delta_chunks.push(chunk_delta_sum / whole(4));
                chunk_hardness = whole(0);
                chunk_delta_sum = whole(0);
                chunk_count = 0;
                proof {
                    assert(all.subrange(seen, seen) =~= seq![]);
                    assert(inverses(all.subrange(seen, seen)) =~= seq![]);
                }
            }
        }
        i = i + 1;
    }
    proof {
        assert(times_of(objects@).take(i as int) =~= times_of(objects@));
    }
    if chunk_count > 0 {
        hardness_chunks.push(chunk_hardness);
        avg_delta_chunks.push(chunk_delta_sum / whole(chunk_count as u64));
    }
    proof {
        assert(values(hardness_chunks@) =~= chunk_hardness_of(objects@));
        assert(values(avg_delta_chunks@) =~= chunk_avg_delta_of(objects@));
    }
    (hardness_chunks, avg_delta_chunks)
}

/// The positive times up to one more object.
proof fn lemma_next_time(objects: Seq<OsuDifficultyObject>, i: int)
    requires
        0 <= i < objects.len(),
    ensures
        ({
            let all = positive_of(times_of(objects));
            let before = positive_of(times_of(objects).take(i));
            let after = positive_of(times_of(objects).take(i + 1));
            let delta = objects[i].delta_time@;
            &&& before.len() <= after.len() <= all.len()
            &&& after == all.take(after.len() as int)
            &&& if exactly(0).below(delta) {
                after == before.push(delta)
            } else {
                after == before
            }
        }),
    decreases objects.len() - i,
{
    reveal(Seq::filter);
    let times = times_of(objects);
    assert(times.take(i + 1).drop_last() =~= times.take(i));
    if i + 1 < objects.len() {
        lemma_next_time(objects, i + 1);
        let after = positive_of(times.take(i + 1));
        let later = positive_of(times.take(i + 2));
        assert(after =~= later.take(after.len() as int));
        assert(after =~= positive_of(times).take(after.len() as int));
    } else {
        assert(times.take(i + 1) =~= times);
        assert(positive_of(times) =~= positive_of(times).take(positive_of(times).len() as int));
    }
}

/// Every four notes that come after some time make a chunk, and so do those that
/// remain: note `k` of them is note `k % 4` of chunk `k / 4`.
pub proof fn law_chunks_have_four_notes(objects: Seq<OsuDifficultyObject>, k: int)
    requires
        0 <= k < positive_of(times_of(objects)).len(),
    ensures
        chunk_hardness_of(objects).len() == (positive_of(times_of(objects)).len() + 3) / 4,
        chunk_avg_delta_of(objects).len() == chunk_hardness_of(objects).len(),
        k / 4 < chunk_hardness_of(objects).len(),
        k % 4 < chunk_of(objects, k / 4).len() <= 4,
        chunk_of(objects, k / 4)[k % 4] == positive_of(times_of(objects))[k],
{
}

/// A chunk is at least as hard as each of its notes: one over the time before it.
pub proof fn law_chunks_are_as_hard_as_their_notes(objects: Seq<OsuDifficultyObject>, k: int)
    requires
        0 <= k < positive_of(times_of(objects)).len(),
    ensures
        (exactly(1) / positive_of(times_of(objects))[k]).at_most(
            chunk_hardness_of(objects)[k / 4],
        ),
{
    law_chunks_have_four_notes(objects, k);
    let chunk = chunk_of(objects, k / 4);
    let list = inverses(chunk);
    let times = positive_of(times_of(objects));
    lemma_one();
    lemma_positive(times_of(objects));
    assert forall|i: int| 0 <= i < list.len() implies number(#[trigger] list[i]) && exactly(
        0,
    ).at_most(list[i]) by {
        let x = chunk[i];
        assert(x == times[4 * (k / 4) + i]);
        lemma_time(objects, 4 * (k / 4) + i);
        lemma_divide(exactly(1), x);
        lemma_inverse(x);
        lemma_order(exactly(0), list[i]);
    }
    law_sums_have_their_entries(list, k % 4);
    assert(list[k % 4] == exactly(1) / times[k]);
}

/// A positive time is a positive number.
proof fn lemma_time(objects: Seq<OsuDifficultyObject>, i: int)
    requires
        0 <= i < positive_of(times_of(objects)).len(),
    ensures
        number(positive_of(times_of(objects))[i]),
        0 < place(positive_of(times_of(objects))[i]),
{
    let x = positive_of(times_of(objects))[i];
    lemma_positive(times_of(objects));
    assert(exactly(0).below(x));
    let k = choose|k: int| 0 <= k < times_of(objects).len() && times_of(objects)[k] == x;
    law_patterns_are_values(objects[k].delta_time);
    lemma_one();
    assert(!(x is Nan)) by {
        reveal(Value::below);
    }
    lemma_order(exactly(0), x);
}

/// One over a positive number is a number.
proof fn lemma_inverse(x: Value)
    requires
        number(x),
        0 < place(x),
    ensures
        number(exactly(1) / x),
        0 <= place(exactly(1) / x),
{
    lemma_one();
    if finite(x) {
        lemma_over(exactly(1), x);
    } else {
        reveal(Value::over);
        lemma_divide(exactly(1), x);
    }
}

/// The mean of two positive numbers lies between them, unless their sum is too large.
proof fn lemma_middle(a: Value, b: Value)
    requires
        number(a) && number(b),
        0 < place(a) <= place(b),
    ensures
        number((a + b) / exactly(2)),
        place(a) <= place((a + b) / exactly(2)),
        finite(a + b) ==> place((a + b) / exactly(2)) <= place(b),
{
    lemma_one();
    lemma_whole_place(2);
    let u = one_units();
    let sum = a + b;
    lemma_sum(a, b);
    lemma_inside(a);
    lemma_inside(b);
    lemma_inside(sum);
    lemma_over(sum, exactly(2));
    lemma_inside(sum / exactly(2));
    if finite(sum) {
        lemma_plus(a, b);
        let x = place(sum);
        lemma_settle_fits(a);
        lemma_settle_fits(b);
        lemma_fits_double(place(a) as nat);
        lemma_fits_double(place(b) as nat);
        lemma_settle_order(2 * place(a), 1, place(a) + place(b), 1);
        lemma_settle_order(place(a) + place(b), 1, 2 * place(b), 1);
        assert(2 * place(a) <= x <= 2 * place(b));
        let (low, high) = (place(a), place(b));
        assert(low * (2 * u) <= (x * u) * 1 && (x * u) * 1 <= high * (2 * u)) by (nonlinear_arith)
            requires
                2 * low <= x <= 2 * high,
                u > 0,
        ;
        lemma_settle_order(place(a), 1, x * u, 2 * u);
        lemma_settle_order(x * u, 2 * u, place(b), 1);
    }
}

/// No fewer than half of the times between objects are up to their median, and no fewer
/// than half are from it on. Of an even number, the two in the middle are short enough to
/// add up.
pub proof fn law_medians_lie_in_the_middle(
    objects: Seq<OsuDifficultyObject>,
    otherwise: Value,
    i: int,
)
    requires
        0 <= i < positive_of(times_of(objects)).len(),
    ensures
        ({
            let s = sorted_of(positive_of(times_of(objects)), false);
            let median = median_of(objects, otherwise);
            let m = s.len() as int / 2;
            &&& s.to_multiset() == positive_of(times_of(objects)).to_multiset()
            &&& s.len() % 2 == 1 ==> s.contains(median)
            &&& 2 * i < s.len() ==> s[i].at_most(median)
            &&& s.len() <= 2 * i + 1 && (s.len() % 2 == 1 || finite(s[m - 1] + s[m]))
                ==> median.at_most(s[i])
        }),
{
    let times = positive_of(times_of(objects));
    let s = sorted_of(times, false);
    law_sorting_keeps_the_entries(times, false);
    let m = s.len() as int / 2;
    let median = median_of(objects, otherwise);
    lemma_sorted_time(objects, i);
    lemma_sorted_time(objects, m);
    if i < m {
        law_sorted_lists_are_in_order(times, false, i, m);
    }
    if m < i {
        law_sorted_lists_are_in_order(times, false, m, i);
    }
    if s.len() % 2 == 0 {
        lemma_sorted_time(objects, m - 1);
        law_sorted_lists_are_in_order(times, false, m - 1, m);
        if i < m - 1 {
            law_sorted_lists_are_in_order(times, false, i, m - 1);
        }
        lemma_middle(s[m - 1], s[m]);
    }
    lemma_order(s[i], median);
    lemma_order(median, s[i]);
}

/// A sorted time is a positive number.
proof fn lemma_sorted_time(objects: Seq<OsuDifficultyObject>, i: int)
    requires
        0 <= i < positive_of(times_of(objects)).len(),
    ensures
        number(sorted_of(positive_of(times_of(objects)), false)[i]),
        0 < place(sorted_of(positive_of(times_of(objects)), false)[i]),
{
    let times = positive_of(times_of(objects));
    let s = sorted_of(times, false);
    law_sorting_keeps_the_entries(times, false);
    lemma_contained(s, times, i);
    let k = choose|k: int| 0 <= k < times.len() && times[k] == s[i];
    lemma_time(objects, k);
}

/// The mean jump of a map lies between its least and its largest, as far as they are told
/// in natural numbers, and maps without jumps have none.
pub proof fn law_mean_jumps_lie_between(
    objects: Seq<OsuDifficultyObject>,
    low: nat,
    high: nat,
)
    requires
        low <= high <= 0x20_0000_0000_0000,
        objects.len() <= 0x20_0000_0000_0000,
        positive_of(jumps_of(objects)).len() * high <= 0x20_0000_0000_0000,
        forall|i: int|
            0 <= i < objects.len() && exactly(0).below((#[trigger] objects[i]).lazy_jump_dist@)
                ==> exactly(low).at_most(objects[i].lazy_jump_dist@)
                && objects[i].lazy_jump_dist@.at_most(exactly(high)),
    ensures
        positive_of(jumps_of(objects)).len() == 0 ==> avg_jump_dist_of(objects) == exactly(0),
        positive_of(jumps_of(objects)).len() > 0 ==> exactly(low).at_most(avg_jump_dist_of(objects))
            && avg_jump_dist_of(objects).at_most(exactly(high)),
{
    let jumps = positive_of(jumps_of(objects));
    if jumps.len() > 0 {
        lemma_positive(jumps_of(objects));
        jumps_of(objects).lemma_filter_len(|x: Value| exactly(0).below(x));
        assert forall|i: int| 0 <= i < jumps.len() implies number(#[trigger] jumps[i]) && exactly(
            low,
        ).at_most(jumps[i]) && jumps[i].at_most(exactly(high)) by {
            assert(exactly(0).below(jumps[i]));
            let k = choose|k: int|
                0 <= k < jumps_of(objects).len() && jumps_of(objects)[k] == jumps[i];
            assert(objects[k].lazy_jump_dist@ == jumps[i]);
            law_patterns_are_values(objects[k].lazy_jump_dist);
            assert(!(jumps[i] is Nan)) by {
                reveal(Value::below);
            }
        }
        law_means_lie_between(jumps, low, high);
    }
}

} // verus!
