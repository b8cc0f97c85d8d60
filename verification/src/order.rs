//! How rounding and the operations on values keep order.
use vstd::arithmetic::power2::{
    lemma2_to64, lemma_pow2_adds, lemma_pow2_pos, lemma_pow2_unfold, pow2,
};
use vstd::prelude::*;

use crate::rounding::{
    lemma_half_even_bounds, lemma_half_even_scale, lemma_round_at, lemma_round_units_scale,
};
use crate::value::{exactly, half_even, magnitude, near, one_units, round_units, rounded, Value};

verus! {

/// The half-way rounding keeps order.
proof fn lemma_half_even_order(m: nat, n: nat, d: nat)
    requires
        d > 0,
        m <= n,
    ensures
        half_even(m, d) <= half_even(n, d),
{
    let q = m / d;
    let r = n / d;
    vstd::arithmetic::div_mod::lemma_fundamental_div_mod(m as int, d as int);
    vstd::arithmetic::div_mod::lemma_fundamental_div_mod(n as int, d as int);
    vstd::arithmetic::div_mod::lemma_div_is_ordered(m as int, n as int, d as int);
    if q == r {
        assert(d * q == d * r);
    }
}

/// What is at least `2^52` spacings rounds to at least as much.
pub proof fn lemma_round_floor(n: nat, d: nat)
    requires
        d > 0,
        n >= d * 0x10_0000_0000_0000,
    ensures
        round_units(n, d) >= 0x10_0000_0000_0000,
    decreases n - d,
{
    if n < d * 0x20_0000_0000_0000 {
        lemma_half_even_bounds(n, d, 0x10_0000_0000_0000);
    } else {
        lemma_round_floor(n, 2 * d);
    }
}

/// Rounding keeps order.
proof fn lemma_round_order_same(m: nat, n: nat, d: nat)
    requires
        d > 0,
        m <= n,
    ensures
        round_units(m, d) <= round_units(n, d),
    decreases n - d,
{
    if n < d * 0x20_0000_0000_0000 {
        lemma_half_even_order(m, n, d);
    } else if m < d * 0x20_0000_0000_0000 {
        lemma_half_even_bounds(m, d, 0x20_0000_0000_0000);
        lemma_round_floor(n, 2 * d);
    } else {
        lemma_round_order_same(m, n, 2 * d);
    }
}

/// Rounding keeps the order of fractions.
pub proof fn lemma_round_order(a: nat, b: nat, c: nat, d: nat)
    requires
        b > 0,
        d > 0,
        a * d <= c * b,
    ensures
        round_units(a, b) <= round_units(c, d),
{
    lemma_round_units_scale(a, b, d);
    lemma_round_units_scale(c, d, b);
    assert(d * b == b * d) by (nonlinear_arith);
    assert(b * d > 0) by (nonlinear_arith)
        requires
            b > 0,
            d > 0,
    ;
    lemma_round_order_same(a * d, c * b, b * d);
}

/// Twice a number that needs no rounding needs none either.
pub proof fn lemma_fits_double(u: nat)
    requires
        round_units(u, 1) == u,
    ensures
        round_units(2 * u, 1) == 2 * u,
{
    if 2 * u < 0x20_0000_0000_0000 {
        assert((2 * u) / 1 == 2 * u && (2 * u) % 1 == 0);
    } else {
        lemma_round_units_scale(u, 1, 2);
        assert(u * 2 == 2 * u && 1 * 2 == 2);
    }
}

/// A number of up to `2^53` spacings needs no rounding.
pub proof fn lemma_fits(m: nat, k: nat)
    requires
        m <= 0x20_0000_0000_0000,
    ensures
        round_units(m * pow2(k), 1) == m * pow2(k),
    decreases k,
{
    lemma2_to64();
    if k == 0 {
        assert(m * pow2(0) == m) by (nonlinear_arith)
            requires
                pow2(0) == 1,
        ;
        if m < 0x20_0000_0000_0000 {
            assert(m / 1 == m && m % 1 == 0);
        } else {
            assert(round_units(m, 2) == half_even(m, 2));
            assert(m / 2 == 0x10_0000_0000_0000 && m % 2 == 0);
        }
    } else {
        lemma_fits(m, (k - 1) as nat);
        lemma_fits_double(m * pow2((k - 1) as nat));
        lemma_pow2_unfold(k);
        let p = pow2((k - 1) as nat);
        assert(2 * (m * p) == m * (2 * p)) by (nonlinear_arith);
    }
}

/// What has been rounded needs no rounding.
pub proof fn lemma_round_fits(n: nat, d: nat)
    requires
        d > 0,
    ensures
        round_units(round_units(n, d), 1) == round_units(n, d),
    decreases n - d,
{
    if n < d * 0x20_0000_0000_0000 {
        lemma_half_even_bounds(n, d, 0x20_0000_0000_0000);
        lemma_fits(half_even(n, d), 0);
        lemma2_to64();
        assert(half_even(n, d) * pow2(0) == half_even(n, d)) by (nonlinear_arith)
            requires
                pow2(0) == 1,
        ;
    } else {
        lemma_round_fits(n, 2 * d);
        lemma_fits_double(round_units(n, 2 * d));
    }
}

/// A fraction of machine integers is a finite number.
pub proof fn lemma_near(a: nat, b: nat)
    requires
        b > 0,
        a <= u64::MAX,
    ensures
        near(a, b) == (Value::Finite { neg: false, units: round_units(a * one_units(), b) }),
        round_units(a * one_units(), b) <= pow2(1138) < pow2(2098),
{
    reveal(Value::ratio);
    lemma2_to64();
    vstd::arithmetic::power2::lemma2_to64_rest();
    let p = one_units();
    assert(a * p * 1 <= (pow2(64) * p) * b) by (nonlinear_arith)
        requires
            b > 0,
            a <= pow2(64),
    ;
    lemma_pow2_adds(64, 1074);
    lemma_round_order(a * p, b, pow2(64) * p, 1);
    lemma_fits(1, 1138);
    vstd::arithmetic::power2::lemma_pow2_strictly_increases(1138, 2098);
}

/// A natural number below `2^53` is itself.
pub proof fn lemma_exactly(n: nat)
    requires
        n <= 0x20_0000_0000_0000,
    ensures
        exactly(n) == (Value::Finite { neg: false, units: n * one_units() }),
        n * one_units() < pow2(2098),
{
    reveal(Value::whole);
    lemma_fits(n, 1074);
    vstd::arithmetic::power2::lemma2_to64_rest();
    lemma_pow2_adds(53, 1074);
    vstd::arithmetic::power2::lemma_pow2_strictly_increases(1127, 2098);
    assert(n * one_units() <= pow2(53) * pow2(1074)) by (nonlinear_arith)
        requires
            n <= pow2(53),
            one_units() == pow2(1074),
    ;
}

/// The units of a decimal fraction that is `m * 2^-j` when rounded.
pub proof fn lemma_near_units(a: nat, b: nat, j: nat, m: nat)
    requires
        b > 0,
        a <= u64::MAX,
        j < 1074,
        b * 0x10_0000_0000_0000 <= a * pow2(j) < b * 0x20_0000_0000_0000,
        m == half_even(a * pow2(j), b),
    ensures
        near(a, b) == (Value::Finite { neg: false, units: m * pow2((1074 - j) as nat) }),
{
    let k = (1074 - j) as nat;
    let c = pow2(k);
    let u = one_units();
    let w = a * pow2(j);
    lemma_near(a, b);
    lemma_pow2_adds(j, k);
    lemma_pow2_pos(k);
    assert(a * u == w * c) by (nonlinear_arith)
        requires
            u == pow2(j) * c,
            w == a * pow2(j),
    ;
    assert(w * c < b * 0x20_0000_0000_0000 * c && w * c >= b * 0x10_0000_0000_0000 * c)
        by (nonlinear_arith)
        requires
            b * 0x10_0000_0000_0000 <= w < b * 0x20_0000_0000_0000,
            c > 0,
    ;
    lemma_round_at(a * u, b, k);
    lemma_half_even_scale(w, b, c);
    assert(c * m == m * c) by (nonlinear_arith);
}

/// The order of two decimal fractions.
pub proof fn lemma_near_order(a: nat, b: nat, c: nat, d: nat)
    requires
        b > 0,
        d > 0,
        a <= u64::MAX,
        c <= u64::MAX,
        a * d <= c * b,
    ensures
        near(a, b).at_most(near(c, d)),
{
    lemma_near(a, b);
    lemma_near(c, d);
    let u = one_units();
    assert((a * u) * d <= (c * u) * b) by (nonlinear_arith)
        requires
            a * d <= c * b,
    ;
    lemma_round_order(a * u, b, c * u, d);
    reveal(Value::below);
    reveal(Value::equals);
}

/// Where the infinities stand, in units.
pub open spec fn end() -> int {
    pow2(2098) as int
}

/// Where a number stands on the line, in units.
pub open spec fn place(v: Value) -> int {
    match v {
        Value::Nan => 0,
        Value::Infinite { neg } => if neg {
            -end()
        } else {
            end()
        },
        Value::Finite { neg, units } => v.signed(),
    }
}

/// Whether a value is one that binary64 has.
pub open spec fn proper(v: Value) -> bool {
    v matches Value::Finite { neg, units } ==> round_units(units, 1) == units && units < pow2(2098)
}

/// Whether a value is a number that binary64 has.
pub open spec fn number(v: Value) -> bool {
    !(v is Nan) && proper(v)
}

/// Whether a value is a finite number that binary64 has.
pub open spec fn finite(v: Value) -> bool {
    v is Finite && proper(v)
}

/// A signed fraction of units, rounded and held to the range.
pub open spec fn settle(n: int, d: nat) -> int {
    let units = round_units(magnitude(n), d) as int;
    let held = if units >= end() {
        end()
    } else {
        units
    };
    if n < 0 {
        -held
    } else {
        held
    }
}

/// Nothing rounds to nothing.
proof fn lemma_round_zero(d: nat)
    requires
        d > 0,
    ensures
        round_units(0, d) == 0,
{
    lemma_round_units_scale(0, 1, d);
    assert(0 * d == 0 && 1 * d == d) by (nonlinear_arith);
    assert(0nat / 1nat == 0 && 0nat % 1nat == 0);
}

/// Signed rounding keeps the order of fractions.
pub proof fn lemma_settle_order(a: int, b: nat, c: int, d: nat)
    requires
        b > 0,
        d > 0,
        a * d <= c * b,
    ensures
        settle(a, b) <= settle(c, d),
{
    lemma_pow2_pos(2098);
    if a >= 0 {
        assert(c >= 0) by (nonlinear_arith)
            requires
                a >= 0,
                a * d <= c * b,
                b > 0,
                d > 0,
        ;
        lemma_round_order(a as nat, b, c as nat, d);
    } else if c < 0 {
        assert((-c) * b <= (-a) * d) by (nonlinear_arith)
            requires
                a * d <= c * b,
        ;
        lemma_round_order((-c) as nat, d, (-a) as nat, b);
    }
}

/// What binary64 has stays where it is when rounded.
pub proof fn lemma_settle_fits(v: Value)
    requires
        finite(v),
    ensures
        settle(v.signed(), 1) == v.signed(),
{
}

/// What rounding yields.
proof fn lemma_rounded(neg: bool, n: nat, d: nat)
    requires
        d > 0,
    ensures
        number(rounded(neg, n, d)),
        place(rounded(neg, n, d)) == if neg {
            -settle(n as int, d)
        } else {
            settle(n as int, d)
        },
{
    lemma_round_fits(n, d);
}

/// The order of numbers is that of their places.
pub proof fn lemma_order(x: Value, y: Value)
    requires
        number(x),
        number(y),
    ensures
        x.below(y) == (place(x) < place(y)),
        x.at_most(y) == (place(x) <= place(y)),
{
    reveal(Value::below);
    reveal(Value::equals);
    lemma_pow2_pos(2098);
}

/// A finite number has a place inside the range.
pub proof fn lemma_inside(v: Value)
    requires
        number(v),
    ensures
        finite(v) <==> -end() < place(v) < end(),
{
    lemma_pow2_pos(2098);
}

/// Where a sum stands.
pub proof fn lemma_plus(x: Value, y: Value)
    requires
        number(x),
        finite(y),
    ensures
        number(x + y),
        finite(x) ==> place(x + y) == settle(place(x) + place(y), 1),
        !finite(x) ==> place(x + y) == place(x),
{
    reveal(Value::plus);
    if finite(x) {
        let n = x.signed() + y.signed();
        lemma_rounded(true, magnitude(n), 1);
        lemma_rounded(false, magnitude(n), 1);
        lemma_round_zero(1);
        lemma_pow2_pos(2098);
    }
}

/// Where the opposite of a number stands.
pub proof fn lemma_negated(x: Value)
    requires
        number(x),
    ensures
        number(x.negated()),
        place(x.negated()) == -place(x),
        finite(x) ==> finite(x.negated()),
{
    reveal(Value::negated);
}

/// Where a difference stands.
pub proof fn lemma_minus(x: Value, y: Value)
    requires
        number(x),
        finite(y),
    ensures
        number(x - y),
        finite(x) ==> place(x - y) == settle(place(x) - place(y), 1),
        !finite(x) ==> place(x - y) == place(x),
{
    reveal(Value::minus);
    lemma_negated(y);
    lemma_plus(x, y.negated());
}

/// Where the product of two finite numbers stands.
pub proof fn lemma_times(x: Value, y: Value)
    requires
        finite(x),
        finite(y),
    ensures
        number(x * y),
        place(x * y) == settle(place(x) * place(y), one_units()),
        place(x) >= 0 && place(y) >= 0 ==> place(x * y) >= 0,
{
    reveal(Value::times);
    lemma_pow2_pos(1074);
    lemma_pow2_pos(2098);
    let (p, q) = (place(x), place(y));
    let (a, b) = (x->units as int, y->units as int);
    let n = a * b;
    lemma_rounded(true, n as nat, one_units());
    lemma_rounded(false, n as nat, one_units());
    lemma_round_zero(one_units());
    assert(n >= 0 && (p * q == n || p * q == -n)) by (nonlinear_arith)
        requires
            n == a * b,
            a >= 0,
            b >= 0,
            p == a || p == -a,
            q == b || q == -b,
    ;
    if n != 0 {
        assert(a > 0 && b > 0 && (p * q < 0 <==> ((p < 0) != (q < 0)))) by (nonlinear_arith)
            requires
                n == a * b,
                n != 0,
                a >= 0,
                b >= 0,
                p == a || p == -a,
                q == b || q == -b,
        ;
    }
    assert(p >= 0 && q >= 0 ==> p * q >= 0) by (nonlinear_arith);
}

/// Where a fraction of natural numbers stands.
pub proof fn lemma_fraction(a: nat, b: nat)
    requires
        a <= 0x20_0000_0000_0000,
        0 < b <= 0x20_0000_0000_0000,
    ensures
        number(exactly(a) / exactly(b)),
        place(exactly(a) / exactly(b)) == settle((a * one_units()) as int, b),
        0 <= place(exactly(a) / exactly(b)),
        a <= b ==> finite(exactly(a) / exactly(b)) && place(exactly(a) / exactly(b))
            <= one_units(),
        a == 0 ==> place(exactly(a) / exactly(b)) == 0,
        a == b ==> place(exactly(a) / exactly(b)) == one_units(),
{
    let u = one_units();
    lemma_pow2_pos(1074);
    lemma_whole_place(a);
    lemma_whole_place(b);
    lemma_whole_place(1);
    lemma_whole_place(0);
    lemma_settle_fits(exactly(1));
    lemma_settle_fits(exactly(0));
    assert(b * u > 0) by (nonlinear_arith)
        requires
            b > 0,
            u > 0,
    ;
    lemma_over(exactly(a), exactly(b));
    let (x, y) = ((a * u) * u, b * u);
    assert(x * b == (a * u) * y) by (nonlinear_arith)
        requires
            x == (a * u) * u,
            y == b * u,
    ;
    lemma_settle_order(x as int, y, (a * u) as int, b);
    lemma_settle_order((a * u) as int, b, x as int, y);
    if a <= b {
        assert((a * u) * 1 <= u * b) by (nonlinear_arith)
            requires
                a <= b,
        ;
        lemma_settle_order((a * u) as int, b, u as int, 1);
        lemma_inside(exactly(1));
        lemma_inside(exactly(a) / exactly(b));
    }
    if a == b {
        assert(u * b <= (a * u) * 1) by (nonlinear_arith)
            requires
                a == b,
        ;
        lemma_settle_order(u as int, 1, (a * u) as int, b);
    }
    if a == 0 {
        assert((a * u) * 1 <= 0 * b) by (nonlinear_arith)
            requires
                a == 0,
        ;
        lemma_settle_order((a * u) as int, b, 0, 1);
    }
}

/// Where a quotient by a positive finite number stands.
pub proof fn lemma_over(x: Value, y: Value)
    requires
        number(x),
        finite(y),
        place(y) > 0,
    ensures
        number(x / y),
        finite(x) ==> place(x / y) == settle(place(x) * one_units(), place(y) as nat),
        !finite(x) ==> place(x / y) == place(x),
        place(x) >= 0 ==> place(x / y) >= 0,
        place(x) <= 0 ==> place(x / y) <= 0,
{
    reveal(Value::over);
    lemma_pow2_pos(1074);
    lemma_pow2_pos(2098);
    if finite(x) {
        let u = one_units();
        let d = y->units;
        let n = x->units * u;
        lemma_rounded(true, n, d);
        lemma_rounded(false, n, d);
        lemma_round_zero(d);
        let p = place(x);
        assert(p * u == if p < 0 {
            -(n as int)
        } else {
            n as int
        }) by (nonlinear_arith)
            requires
                n == x->units * u,
                p == x->units || p == -(x->units as int),
                p < 0 ==> p == -(x->units as int),
                p >= 0 ==> p == x->units,
        ;
        assert(p < 0 ==> p * u < 0) by (nonlinear_arith)
            requires
                u > 0,
        ;
        assert(p == 0 ==> n == 0) by (nonlinear_arith)
            requires
                n == x->units * u,
                p == 0 ==> x->units == 0,
        ;
    }
}

/// Where a number stands that is held between two others.
pub proof fn lemma_clamped(x: Value, low: Value, high: Value)
    requires
        number(x),
        finite(low),
        finite(high),
        place(low) <= place(high),
    ensures
        finite(x.clamped(low, high)),
        place(x.clamped(low, high)) == if place(x) < place(low) {
            place(low)
        } else if place(x) > place(high) {
            place(high)
        } else {
            place(x)
        },
{
    reveal(Value::clamped);
    lemma_order(x, low);
    lemma_order(high, x);
    lemma_inside(low);
    lemma_inside(high);
    lemma_inside(x);
}

/// Where the larger of two numbers stands.
pub proof fn lemma_greater(x: Value, y: Value)
    requires
        number(x),
        number(y),
    ensures
        number(x.greater(y)),
        place(x.greater(y)) == if place(x) < place(y) {
            place(y)
        } else {
            place(x)
        },
{
    reveal(Value::greater);
    lemma_order(x, y);
}

/// Where the smaller of two numbers stands.
pub proof fn lemma_lesser(x: Value, y: Value)
    requires
        number(x),
        number(y),
    ensures
        number(x.lesser(y)),
        place(x.lesser(y)) == if place(y) < place(x) {
            place(y)
        } else {
            place(x)
        },
{
    reveal(Value::lesser);
    lemma_order(y, x);
}

/// Where a natural number stands.
pub proof fn lemma_whole_place(n: nat)
    requires
        n <= 0x20_0000_0000_0000,
    ensures
        finite(exactly(n)),
        place(exactly(n)) == n * one_units(),
{
    lemma_exactly(n);
    lemma_fits(n, 1074);
}

/// Where a decimal fraction stands.
pub proof fn lemma_near_place(a: nat, b: nat)
    requires
        b > 0,
        a <= u64::MAX,
    ensures
        finite(near(a, b)),
        place(near(a, b)) == settle((a * one_units()) as int, b),
        place(near(a, b)) >= 0,
{
    lemma_near(a, b);
    lemma_round_fits(a * one_units(), b);
}

/// The order of the places of two decimal fractions.
pub proof fn lemma_near_places(a: nat, b: nat, c: nat, d: nat)
    requires
        b > 0,
        d > 0,
        a <= u64::MAX,
        c <= u64::MAX,
        a * d <= c * b,
    ensures
        place(near(a, b)) <= place(near(c, d)),
{
    lemma_near_place(a, b);
    lemma_near_place(c, d);
    let u = one_units();
    assert((a * u) as int * d <= (c * u) as int * b) by (nonlinear_arith)
        requires
            a * d <= c * b,
    ;
    lemma_settle_order((a * u) as int, b, (c * u) as int, d);
}

/// The product of a number that is not below zero with one up to one is no
/// larger than the number.
pub proof fn lemma_times_share(x: Value, y: Value)
    requires
        finite(x),
        finite(y),
        place(x) >= 0,
        0 <= place(y) <= one_units(),
    ensures
        finite(x * y),
        0 <= place(x * y) <= place(x),
{
    lemma_times(x, y);
    lemma_pow2_pos(1074);
    lemma_settle_fits(x);
    let u = one_units();
    assert((place(x) * place(y)) * 1 <= place(x) * u) by (nonlinear_arith)
        requires
            place(x) >= 0,
            place(y) <= u,
    ;
    lemma_settle_order(place(x) * place(y), u, place(x), 1);
    lemma_inside(x);
    lemma_inside(x * y);
}

/// The same with the factors the other way round.
pub proof fn lemma_share_times(x: Value, y: Value)
    requires
        finite(x),
        finite(y),
        0 <= place(x) <= one_units(),
        place(y) >= 0,
    ensures
        finite(x * y),
        0 <= place(x * y) <= place(y),
{
    lemma_times_share(y, x);
    lemma_times(x, y);
    lemma_times(y, x);
    assert(place(x) * place(y) == place(y) * place(x)) by (nonlinear_arith);
    lemma_inside(y * x);
    lemma_inside(x * y);
}

/// The quotient of a number that is not below zero by one from one on is no
/// larger than the number.
pub proof fn lemma_over_more(x: Value, y: Value)
    requires
        finite(x),
        finite(y),
        place(x) >= 0,
        place(y) >= one_units(),
    ensures
        finite(x / y),
        0 <= place(x / y) <= place(x),
{
    lemma_pow2_pos(1074);
    lemma_over(x, y);
    lemma_settle_fits(x);
    let u = one_units();
    assert((place(x) * u) * 1 <= place(x) * place(y)) by (nonlinear_arith)
        requires
            place(x) >= 0,
            place(y) >= u,
    ;
    lemma_settle_order(place(x) * u, place(y) as nat, place(x), 1);
    lemma_inside(x);
    lemma_inside(x / y);
}

/// Products keep the order of numbers that are not below zero.
pub proof fn lemma_times_order(x: Value, y: Value, v: Value, w: Value)
    requires
        finite(x),
        finite(y),
        finite(v),
        finite(w),
        0 <= place(x) <= place(v),
        0 <= place(y) <= place(w),
    ensures
        place(x * y) <= place(v * w),
{
    lemma_times(x, y);
    lemma_times(v, w);
    lemma_pow2_pos(1074);
    let u = one_units();
    assert((place(x) * place(y)) * u <= (place(v) * place(w)) * u) by (nonlinear_arith)
        requires
            0 <= place(x) <= place(v),
            0 <= place(y) <= place(w),
            u > 0,
    ;
    lemma_settle_order(place(x) * place(y), u, place(v) * place(w), u);
}

/// Quotients by a positive number keep the order.
pub proof fn lemma_over_order(x: Value, y: Value, d: Value)
    requires
        number(x),
        number(y),
        finite(d),
        place(d) > 0,
        place(x) <= place(y),
    ensures
        place(x / d) <= place(y / d),
{
    lemma_over(x, d);
    lemma_over(y, d);
    lemma_inside(x);
    lemma_inside(y);
    lemma_inside(x / d);
    lemma_inside(y / d);
    lemma_pow2_pos(2098);
    lemma_pow2_pos(1074);
    if finite(x) && finite(y) {
        let u = one_units();
        let p = place(d) as nat;
        assert((place(x) * u) * p <= (place(y) * u) * p) by (nonlinear_arith)
            requires
                place(x) <= place(y),
                u > 0,
                p > 0,
        ;
        lemma_settle_order(place(x) * u, p, place(y) * u, p);
    }
}

/// Differences from a finite number keep the order.
pub proof fn lemma_minus_order(x: Value, y: Value, c: Value)
    requires
        number(x),
        number(y),
        finite(c),
        place(x) <= place(y),
    ensures
        place(x - c) <= place(y - c),
{
    lemma_minus(x, c);
    lemma_minus(y, c);
    lemma_inside(x);
    lemma_inside(y);
    lemma_inside(x - c);
    lemma_inside(y - c);
    lemma_pow2_pos(2098);
    if finite(x) && finite(y) {
        lemma_settle_order(place(x) - place(c), 1, place(y) - place(c), 1);
    }
}

/// Sums keep the order.
pub proof fn lemma_plus_order(x: Value, y: Value, v: Value, w: Value)
    requires
        finite(x),
        finite(y),
        finite(v),
        finite(w),
        place(x) <= place(v),
        place(y) <= place(w),
    ensures
        place(x + y) <= place(v + w),
{
    lemma_plus(x, y);
    lemma_plus(v, w);
    lemma_settle_order(place(x) + place(y), 1, place(v) + place(w), 1);
}

/// What is left of one after a share stands between zero and one, the lower the
/// larger the share.
pub proof fn lemma_left_of_one(x: Value)
    requires
        finite(x),
        0 <= place(x) <= one_units(),
    ensures
        finite(exactly(1) - x),
        0 <= place(exactly(1) - x) <= one_units(),
        place(exactly(1) - x) == settle(one_units() - place(x), 1),
{
    lemma_whole_place(1);
    lemma_minus(exactly(1), x);
    lemma_pow2_pos(1074);
    lemma_settle_fits(exactly(1));
    lemma_settle_order(one_units() - place(x), 1, one_units() as int, 1);
    lemma_round_zero(1);
    lemma_settle_order(0, 1, one_units() - place(x), 1);
    lemma_inside(exactly(1));
    lemma_inside(exactly(1) - x);
}

/// What the operations yield, binary64 has.
pub proof fn lemma_proper(x: Value, y: Value)
    ensures
        proper(x) && proper(y) ==> proper(x + y),
        proper(x * y),
        proper(x / y),
        x is Finite && y is Finite ==> proper(x + y) && !((x + y) is Nan),
        x is Finite && y is Finite ==> proper(x - y) && !((x - y) is Nan),
{
    reveal(Value::plus);
    reveal(Value::minus);
    reveal(Value::negated);
    reveal(Value::times);
    reveal(Value::over);
    lemma_pow2_pos(1074);
    lemma_pow2_pos(2098);
    lemma_round_zero(1);
    match (x, y) {
        (Value::Finite { neg: a, units: m }, Value::Finite { neg: b, units: n }) => {
            let sum = x.signed() + y.signed();
            let difference = x.signed() - y.signed();
            lemma_round_fits(magnitude(sum), 1);
            lemma_round_fits(magnitude(difference), 1);
            lemma_round_fits(m * n, one_units());
            if n > 0 {
                lemma_round_fits(m * one_units(), n);
            }
        },
        _ => {},
    }
}

/// What is held between two finite numbers, and is a number, lies between them.
pub proof fn lemma_held(x: Value, low: Value, high: Value)
    requires
        proper(x),
        finite(low),
        finite(high),
        place(low) <= place(high),
    ensures
        x.clamped(low, high) is Nan <==> x is Nan,
        !(x is Nan) ==> low.at_most(x.clamped(low, high)) && x.clamped(low, high).at_most(high),
{
    if x is Nan {
        reveal(Value::clamped);
        reveal(Value::below);
    } else {
        lemma_clamped(x, low, high);
        lemma_order(low, x.clamped(low, high));
        lemma_order(x.clamped(low, high), high);
    }
}

/// What is no number stays none.
pub proof fn lemma_nan(x: Value, y: Value)
    requires
        x is Nan || y is Nan,
    ensures
        (x + y) is Nan,
        (x - y) is Nan,
        (x * y) is Nan,
        (x / y) is Nan,
{
    reveal(Value::plus);
    reveal(Value::minus);
    reveal(Value::negated);
    reveal(Value::times);
    reveal(Value::over);
}

/// One, as a fraction.
pub proof fn lemma_one()
    ensures
        near(1, 1) == exactly(1),
        finite(exactly(1)),
        place(exactly(1)) == one_units(),
        finite(exactly(0)),
        place(exactly(0)) == 0,
        one_units() > 0,
{
    reveal(Value::ratio);
    reveal(Value::whole);
    lemma_whole_place(1);
    lemma_whole_place(0);
    lemma_pow2_pos(1074);
}

/// A number times one is itself.
pub proof fn lemma_times_one(x: Value)
    requires
        proper(x),
    ensures
        x * exactly(1) == x,
{
    reveal(Value::times);
    lemma_exactly(1);
    lemma_pow2_pos(1074);
    assert(1 * one_units() == one_units());
    if let Value::Finite { neg, units } = x {
        lemma_round_units_scale(units, 1, one_units());
    }
}

/// Sums of numbers that are not below zero are such numbers, and no smaller than
/// either.
pub proof fn lemma_sum(x: Value, y: Value)
    requires
        number(x),
        number(y),
        0 <= place(x),
        0 <= place(y),
    ensures
        number(x + y),
        place(x) <= place(x + y),
        place(y) <= place(x + y),
{
    lemma_pow2_pos(2098);
    lemma_inside(x);
    lemma_inside(y);
    if finite(y) {
        lemma_plus(x, y);
        if finite(x) {
            lemma_settle_fits(x);
            lemma_settle_fits(y);
            lemma_settle_order(place(x), 1, place(x) + place(y), 1);
            lemma_settle_order(place(y), 1, place(x) + place(y), 1);
        }
    } else {
        reveal(Value::plus);
    }
}

/// Sums keep the order of numbers that are not below zero.
pub proof fn lemma_sum_order(x: Value, y: Value, v: Value, w: Value)
    requires
        number(x) && number(y) && number(v) && number(w),
        0 <= place(x) <= place(v),
        0 <= place(y) <= place(w),
    ensures
        place(x + y) <= place(v + w),
{
    lemma_pow2_pos(2098);
    lemma_inside(x);
    lemma_inside(y);
    lemma_inside(v);
    lemma_inside(w);
    lemma_sum(x, y);
    lemma_sum(v, w);
    lemma_inside(x + y);
    lemma_inside(v + w);
    if finite(v) && finite(w) {
        lemma_plus_order(x, y, v, w);
    }
}

/// What is above a half does not round to nothing.
proof fn lemma_round_up(n: nat, d: nat)
    requires
        d > 0,
        2 * n > d,
    ensures
        round_units(n, d) >= 1,
{
    if n < d * 0x20_0000_0000_0000 {
        vstd::arithmetic::div_mod::lemma_fundamental_div_mod(n as int, d as int);
        if n / d == 0 {
            assert(d * (n / d) == 0);
        }
    } else {
        lemma_round_floor(n, d);
    }
}

/// More than half of a positive number is positive.
pub proof fn lemma_large_share(x: Value, y: Value)
    requires
        number(x),
        finite(y),
        0 < place(x),
        one_units() < 2 * place(y),
    ensures
        number(x * y),
        0 < place(x * y),
{
    lemma_pow2_pos(1074);
    lemma_pow2_pos(2098);
    if finite(x) {
        lemma_times(x, y);
        let (p, q, u) = (place(x), place(y), one_units());
        assert(2 * (p * q) > u) by (nonlinear_arith)
            requires
                p >= 1,
                2 * q > u,
                u >= 0,
        ;
        lemma_round_up((p * q) as nat, u);
    } else {
        reveal(Value::times);
    }
}

/// Where a decimal fraction from three quarters on stands.
pub proof fn lemma_near_large(a: nat, b: nat)
    requires
        b > 0,
        a <= u64::MAX,
        3 * b <= 4 * a,
    ensures
        finite(near(a, b)),
        one_units() < 2 * place(near(a, b)),
{
    lemma_near_place(a, b);
    lemma_pow2_pos(1072);
    vstd::arithmetic::power2::lemma_pow2_unfold(1074);
    vstd::arithmetic::power2::lemma_pow2_unfold(1073);
    let p = pow2(1072);
    let u = one_units();
    lemma_fits(3, 1072);
    let c = 3 * p;
    assert(c * b <= (a * u) as int * 1) by (nonlinear_arith)
        requires
            c == 3 * p,
            u == 4 * p,
            3 * b <= 4 * a,
    ;
    lemma_settle_order(c as int, 1, (a * u) as int, b);
    vstd::arithmetic::power2::lemma_pow2_strictly_increases(1074, 2098);
}

/// The product of numbers from one on is such a number.
pub proof fn lemma_times_more(x: Value, y: Value)
    requires
        number(x),
        number(y),
        one_units() <= place(x),
        one_units() <= place(y),
    ensures
        number(x * y),
        one_units() <= place(x * y),
{
    lemma_pow2_pos(1074);
    lemma_pow2_pos(2098);
    lemma_one();
    if finite(x) && finite(y) {
        lemma_times(x, y);
        lemma_settle_fits(exactly(1));
        let (p, q, u) = (place(x), place(y), one_units());
        assert(u * u <= (p * q) * 1) by (nonlinear_arith)
            requires
                0 < u <= p,
                u <= q,
        ;
        lemma_settle_order(u as int, 1, p * q, u);
    } else {
        reveal(Value::times);
        lemma_inside(exactly(1));
    }
}

/// The quotient by a number from one on, which may be infinite, is no larger.
pub proof fn lemma_over_large(x: Value, y: Value)
    requires
        finite(x),
        number(y),
        0 <= place(x),
        one_units() <= place(y),
    ensures
        finite(x / y),
        0 <= place(x / y) <= place(x),
{
    if finite(y) {
        lemma_over_more(x, y);
    } else {
        reveal(Value::over);
        lemma_round_zero(1);
        lemma_pow2_pos(2098);
    }
}

/// Where a number of sixty-fourths stands.
pub proof fn lemma_dyadic(m: nat)
    requires
        m <= 0x1_0000,
    ensures
        finite(near(m, 64)),
        place(near(m, 64)) == m * pow2(1068),
        one_units() == 64 * pow2(1068),
        0 < pow2(1068),
{
    lemma_near_place(m, 64);
    vstd::arithmetic::power2::lemma2_to64();
    lemma_pow2_adds(6, 1068);
    lemma_pow2_pos(1068);
    lemma_pow2_pos(2098);
    lemma_fits(m, 1068);
    let (u, q) = (one_units(), pow2(1068));
    assert((m * u) * 1 == (m * q) * 64) by (nonlinear_arith)
        requires
            u == 64 * q,
    ;
    lemma_settle_order((m * u) as int, 64, (m * q) as int, 1);
    lemma_settle_order((m * q) as int, 1, (m * u) as int, 64);
    vstd::arithmetic::power2::lemma_pow2_strictly_increases(1085, 2098);
    vstd::arithmetic::power2::lemma_pow2_strictly_increases(1084, 1085);
    lemma_pow2_adds(16, 1068);
    assert(m * q <= pow2(16) * q) by (nonlinear_arith)
        requires
            m <= pow2(16),
    ;
    assert(settle((m * q) as int, 1) == m * q);
}

/// The difference of two finite numbers is at least any number that their distance
/// reaches.
pub proof fn lemma_minus_least(x: Value, y: Value, least: Value)
    requires
        finite(x),
        finite(y),
        finite(least),
        0 <= place(y),
        0 <= place(x),
        0 <= place(least) <= place(x) - place(y),
    ensures
        finite(x - y),
        place(least) <= place(x - y) <= place(x),
{
    lemma_minus(x, y);
    lemma_settle_fits(least);
    lemma_settle_fits(x);
    lemma_settle_order(place(least), 1, place(x) - place(y), 1);
    lemma_settle_order(place(x) - place(y), 1, place(x), 1);
    lemma_inside(x);
    lemma_inside(x - y);
}

/// A number by one is itself.
pub proof fn lemma_over_one(x: Value)
    requires
        proper(x),
    ensures
        x / exactly(1) == x,
{
    reveal(Value::over);
    lemma_exactly(1);
    lemma_pow2_pos(1074);
    assert(1 * one_units() == one_units());
    if let Value::Finite { neg, units } = x {
        lemma_round_units_scale(units, 1, one_units());
    }
}

/// What stands at one is one.
pub proof fn lemma_is_one(v: Value)
    requires
        finite(v),
        place(v) == one_units(),
    ensures
        v == exactly(1),
{
    lemma_one();
    lemma_exactly(1);
    assert(1 * one_units() == one_units());
}

/// One and nothing make one, and nothing times a number is nothing.
pub proof fn lemma_nothing(x: Value, y: Value)
    requires
        finite(x),
        place(x) == 0,
        finite(y),
    ensures
        exactly(1) + x == exactly(1),
        exactly(1) - x == exactly(1),
        finite(x * y) && place(x * y) == 0,
        finite(y * x) && place(y * x) == 0,
{
    lemma_one();
    lemma_plus(exactly(1), x);
    lemma_minus(exactly(1), x);
    lemma_settle_fits(exactly(1));
    lemma_settle_fits(exactly(0));
    lemma_inside(exactly(1));
    lemma_inside(exactly(0));
    lemma_inside(exactly(1) + x);
    lemma_inside(exactly(1) - x);
    lemma_is_one(exactly(1) + x);
    lemma_is_one(exactly(1) - x);
    lemma_times(x, y);
    lemma_times(y, x);
    assert(place(x) * place(y) == 0 && place(y) * place(x) == 0) by (nonlinear_arith)
        requires
            place(x) == 0,
    ;
    lemma_settle_order(0, one_units(), 0, 1);
    lemma_settle_order(0, 1, 0, one_units());
    lemma_inside(x * y);
    lemma_inside(y * x);
}

/// Products of natural numbers are exact.
pub proof fn lemma_exact_product(a: nat, b: nat)
    requires
        a * b <= 0x20_0000_0000_0000,
        a <= 0x20_0000_0000_0000,
        b <= 0x20_0000_0000_0000,
    ensures
        exactly(a) * exactly(b) == exactly(a * b),
{
    lemma_one();
    lemma_exactly(a);
    lemma_exactly(b);
    lemma_exactly(a * b);
    reveal(Value::times);
    let u = one_units();
    assert((a * u) * (b * u) == ((a * b) * u) * u) by (nonlinear_arith);
    lemma_fits(a * b, 1074);
    lemma_round_units_scale((a * b) * u, 1, u);
    lemma_whole_place(a * b);
    lemma_inside(exactly(a * b));
}

/// Multiples of a 64th are exact.
pub proof fn lemma_settle_dyadic(k: int)
    requires
        -0x20_0000_0000_0000 <= k <= 0x20_0000_0000_0000,
    ensures
        settle(k * pow2(1068), 1) == k * pow2(1068),
        one_units() == 64 * pow2(1068),
        0 < pow2(1068),
        k * pow2(1068) < end(),
{
    lemma_dyadic(1);
    let q = pow2(1068) as int;
    let m = if k < 0 {
        (-k) as nat
    } else {
        k as nat
    };
    lemma_fits(m, 1068);
    assert(k < 0 ==> k * q == -(m * q) && k * q < 0) by (nonlinear_arith)
        requires
            k < 0 ==> m == -k,
            q > 0,
    ;
    assert(m * q >= 0) by (nonlinear_arith)
        requires
            q > 0,
    ;
    assert(m * q < end()) by {
        vstd::arithmetic::power2::lemma2_to64_rest();
        lemma_pow2_adds(54, 1068);
        vstd::arithmetic::power2::lemma_pow2_strictly_increases(1122, 2098);
        assert(m * q <= 0x40_0000_0000_0000 * q) by (nonlinear_arith)
            requires
                m <= 0x20_0000_0000_0000,
                q > 0,
        ;
    }
}

} // verus!
