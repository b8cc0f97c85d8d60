//! Facts about rounding to 53 significant bits.
use vstd::arithmetic::div_mod::{
    lemma_fundamental_div_mod, lemma_fundamental_div_mod_converse,
};
use vstd::arithmetic::power2::{
    lemma2_to64, lemma2_to64_rest, lemma_pow2_adds, lemma_pow2_pos, lemma_pow2_strictly_increases,
    lemma_pow2_unfold, pow2,
};
use vstd::prelude::*;

use crate::value::{floor_root, half_even, half_even_root, round_root, round_units};

verus! {

/// A fraction and the same fraction with both parts scaled round alike.
pub proof fn lemma_half_even_scale(n: nat, d: nat, c: nat)
    requires
        d > 0,
        c > 0,
    ensures
        half_even(n * c, d * c) == half_even(n, d),
{
    let q = n / d;
    let r = n % d;
    lemma_fundamental_div_mod(n as int, d as int);
    assert(n * c == q * (d * c) + r * c) by (nonlinear_arith)
        requires
            n == d * q + r,
    ;
    assert(r * c < d * c) by (nonlinear_arith)
        requires
            r < d,
            c > 0,
    ;
    assert(0 <= r * c) by (nonlinear_arith);
    lemma_fundamental_div_mod_converse((n * c) as int, (d * c) as int, q as int, (r * c) as int);
    assert((2 * r < d) == (2 * (r * c) < d * c)) by (nonlinear_arith)
        requires
            c > 0,
    ;
    assert((2 * r > d) == (2 * (r * c) > d * c)) by (nonlinear_arith)
        requires
            c > 0,
    ;
}

/// Rounding happens at the spacing `2^k` on the range that has that spacing.
pub proof fn lemma_round_at(n: nat, d: nat, k: nat)
    requires
        d > 0,
        n < d * 0x20_0000_0000_0000 * pow2(k),
        k == 0 || n >= d * 0x10_0000_0000_0000 * pow2(k),
    ensures
        round_units(n, d) == pow2(k) * half_even(n, d * pow2(k)),
    decreases k,
{
    if k == 0 {
        lemma2_to64();
        let p = pow2(k);
        let h = half_even(n, d);
        assert(d * p == d && p * h == h && d * 0x20_0000_0000_0000 * p == d
            * 0x20_0000_0000_0000) by (nonlinear_arith)
            requires
                p == 1,
        ;
    } else {
        let p = pow2((k - 1) as nat);
        lemma_pow2_unfold(k);
        lemma_pow2_pos((k - 1) as nat);
        assert(d * 0x10_0000_0000_0000 * (2 * p) >= d * 0x20_0000_0000_0000) by (nonlinear_arith)
            requires
                p > 0,
        ;
        assert(d * 0x20_0000_0000_0000 * (2 * p) == (2 * d) * 0x20_0000_0000_0000 * p)
            by (nonlinear_arith);
        assert(d * 0x10_0000_0000_0000 * (2 * p) == (2 * d) * 0x10_0000_0000_0000 * p)
            by (nonlinear_arith);
        lemma_round_at(n, 2 * d, (k - 1) as nat);
        assert(d * (2 * p) == (2 * d) * p) by (nonlinear_arith);
        let h = half_even(n, d * pow2(k));
        assert(2 * (p * h) == (2 * p) * h) by (nonlinear_arith);
    }
}

/// Rounding `a / (b * c)` from the integer part of `a / b`.
pub proof fn lemma_half_even_split(a: nat, b: nat, c: nat)
    requires
        b > 0,
        c > 0,
        c % 2 == 0 || (c == 1 && a % b == 0),
    ensures
        half_even(a, b * c) == ({
            let m = a / b;
            let q = m / c;
            let y = m % c;
            if 2 * y < c {
                q
            } else if 2 * y > c || a % b != 0 {
                q + 1
            } else if q % 2 == 0 {
                q
            } else {
                q + 1
            }
        }),
{
    let m = a / b;
    let r = a % b;
    let q = m / c;
    let y = m % c;
    lemma_fundamental_div_mod(a as int, b as int);
    lemma_fundamental_div_mod(m as int, c as int);
    let w = b * y + r;
    assert(a == q * (b * c) + w) by (nonlinear_arith)
        requires
            a == b * m + r,
            m == c * q + y,
            w == b * y + r,
    ;
    assert(0 <= w < b * c) by (nonlinear_arith)
        requires
            w == b * y + r,
            r < b,
            y + 1 <= c,
            0 <= y,
            0 <= r,
            b > 0,
    ;
    assert(b * c > 0) by (nonlinear_arith)
        requires
            b > 0,
            c > 0,
    ;
    lemma_fundamental_div_mod_converse(a as int, (b * c) as int, q as int, w as int);
    if 2 * y < c {
        if c % 2 == 0 {
            assert(2 * y + 2 <= c);
            assert(2 * w < b * c) by (nonlinear_arith)
                requires
                    2 * y + 2 <= c,
                    w == b * y + r,
                    r < b,
                    b > 0,
            ;
        } else {
            assert(2 * w < b * c) by (nonlinear_arith)
                requires
                    y == 0,
                    r == 0,
                    c == 1,
                    w == b * y + r,
                    b > 0,
            ;
        }
    } else if 2 * y > c {
        assert(2 * w > b * c) by (nonlinear_arith)
            requires
                2 * y > c,
                w == b * y + r,
                r >= 0,
                b > 0,
        ;
    } else {
        assert(2 * w == b * c + 2 * r) by (nonlinear_arith)
            requires
                2 * y == c,
                w == b * y + r,
        ;
    }
}

/// A fraction below `limit` does not round above it, and one of at least
/// `limit` does not round below it.
pub proof fn lemma_half_even_bounds(n: nat, d: nat, limit: nat)
    requires
        d > 0,
    ensures
        n <= d * limit ==> half_even(n, d) <= limit,
        n >= d * limit ==> half_even(n, d) >= limit,
{
    let q = n / d;
    let r = n % d;
    lemma_fundamental_div_mod(n as int, d as int);
    if n <= d * limit {
        if q + 1 > limit {
            assert(q == limit && r == 0) by (nonlinear_arith)
                requires
                    n == d * q + r,
                    n <= d * limit,
                    q >= limit,
                    r >= 0,
                    d > 0,
            ;
        }
    }
    if n >= d * limit {
        assert(q >= limit) by (nonlinear_arith)
            requires
                n == d * q + r,
                n >= d * limit,
                r < d,
                d > 0,
        ;
    }
}

/// Powers of two grow with their exponents.
pub proof fn lemma_pow2_grows(x: nat, y: nat)
    requires
        x <= y,
    ensures
        pow2(x) <= pow2(y),
{
    if x < y {
        lemma_pow2_strictly_increases(x, y);
    }
}

/// `2^e` where that is an integer, one otherwise.
pub open spec fn raise(e: int) -> nat {
    if e >= 0 {
        pow2(e as nat)
    } else {
        1
    }
}

/// How the fraction `a / b`, scaled by `2^e`, rounds at the spacing `2^k` that
/// its bit length calls for.
pub proof fn lemma_round_scaled(a: nat, b: nat, l: nat, e: int, k: nat)
    requires
        b > 0,
        a / b < pow2(l),
        a / b == 0 || pow2(l) <= 2 * (a / b),
        k == if l + e > 53 && a / b > 0 {
            l + e - 53
        } else {
            0
        },
        a / b == 0 ==> l == 0,
        a % b != 0 ==> l >= 55,
    ensures
        ({
            let n = a * raise(e);
            let d = b * raise(-e);
            let h = half_even(n, d * pow2(k));
            &&& round_units(n, d) == pow2(k) * h
            &&& h <= 0x20_0000_0000_0000
            &&& k == 0 || h >= 0x10_0000_0000_0000
            &&& k - e > 0 ==> h == half_even(a, b * pow2((k - e) as nat))
            &&& k - e <= 0 ==> h == (a / b) * pow2((e - k) as nat)
            &&& a % b != 0 ==> k - e >= 2
        }),
{
    let m = a / b;
    let p = raise(e);
    let v = raise(-e);
    let n = a * p;
    let d = b * v;
    let two_k = pow2(k);
    let two_l = pow2(l);
    lemma2_to64();
    lemma2_to64_rest();
    lemma_pow2_pos(k);
    lemma_pow2_pos(l);
    if e >= 0 {
        lemma_pow2_pos(e as nat);
    } else {
        lemma_pow2_pos((-e) as nat);
    }
    let pe: nat = if e >= 0 {
        e as nat
    } else {
        0
    };
    let ve: nat = if e >= 0 {
        0
    } else {
        (-e) as nat
    };
    lemma_fundamental_div_mod(a as int, b as int);
    lemma_pow2_adds(l, pe);
    lemma_pow2_adds(53, k);
    lemma_pow2_adds(ve, 53 + k);
    let c53: nat = 0x20_0000_0000_0000;
    let c52: nat = 0x10_0000_0000_0000;
    assert(pow2(53) == c53);
    let target = v * (c53 * two_k);
    assert(target == pow2(ve + 53 + k));
    if m == 0 {
        assert(n == 0) by (nonlinear_arith)
            requires
                a == b * m,
                m == 0,
                n == a * p,
        ;
    } else {
        lemma_pow2_grows(l + pe, ve + 53 + k);
    }
    assert(d > 0) by (nonlinear_arith)
        requires
            d == b * v,
            b > 0,
            v > 0,
    ;
    assert(n < d * c53 * two_k) by {
        if m == 0 {
            assert(d * c53 * two_k > 0) by (nonlinear_arith)
                requires
                    d > 0,
                    two_k > 0,
                    c53 > 0,
            ;
        } else {
            assert(a * p < b * (two_l * p)) by (nonlinear_arith)
                requires
                    a == b * m + a % b,
                    a % b < b,
                    m + 1 <= two_l,
                    p > 0,
                    b > 0,
            ;
            assert(b * (two_l * p) <= b * target) by (nonlinear_arith)
                requires
                    two_l * p <= target,
            ;
            assert(b * target == d * c53 * two_k) by (nonlinear_arith)
                requires
                    target == v * (c53 * two_k),
                    d == b * v,
            ;
        }
    }
    if k > 0 {
        assert(two_l * p == target);
        assert(2 * n >= d * c53 * two_k) by {
            assert(2 * (a * p) >= b * (two_l * p)) by (nonlinear_arith)
                requires
                    a >= b * m,
                    2 * m >= two_l,
                    p > 0,
                    b > 0,
            ;
            assert(b * target == d * c53 * two_k) by (nonlinear_arith)
                requires
                    target == v * (c53 * two_k),
                    d == b * v,
            ;
        }
        assert(d * c53 * two_k == 2 * (d * c52 * two_k)) by (nonlinear_arith)
            requires
                c53 == 2 * c52,
        ;
    }
    lemma_round_at(n, d, k);
    let dk = d * two_k;
    assert(dk > 0) by (nonlinear_arith)
        requires
            dk == d * two_k,
            d > 0,
            two_k > 0,
    ;
    assert(d * c53 * two_k == dk * c53 && d * c52 * two_k == dk * c52) by (nonlinear_arith)
        requires
            dk == d * two_k,
    ;
    lemma_half_even_bounds(n, dk, c53);
    lemma_half_even_bounds(n, dk, c52);
    let s = k - e;
    if s > 0 {
        lemma_pow2_adds(ve, k);
        lemma_pow2_adds(pe, s as nat);
        let two_s = pow2(s as nat);
        lemma_pow2_pos(s as nat);
        assert(v * two_k == p * two_s);
        assert(dk == (b * two_s) * p) by (nonlinear_arith)
            requires
                dk == d * two_k,
                d == b * v,
                v * two_k == p * two_s,
        ;
        assert(b * two_s > 0) by (nonlinear_arith)
            requires
                b > 0,
                two_s > 0,
        ;
        lemma_half_even_scale(a, b * two_s, p);
    } else {
        let two_t = pow2((e - k) as nat);
        lemma_pow2_adds(ve, k);
        lemma_pow2_adds(ve + k, (e - k) as nat);
        let vk = v * two_k;
        assert(vk * two_t == p);
        assert(a % b == 0);
        assert(a == m * b) by (nonlinear_arith)
            requires
                a == b * m + a % b,
                a % b == 0,
        ;
        assert(vk > 0) by (nonlinear_arith)
            requires
                vk == v * two_k,
                v > 0,
                two_k > 0,
        ;
        assert(n == (m * two_t) * (b * vk)) by (nonlinear_arith)
            requires
                n == a * p,
                a == m * b,
                p == vk * two_t,
        ;
        assert(dk == 1 * (b * vk)) by (nonlinear_arith)
            requires
                dk == d * two_k,
                d == b * v,
                vk == v * two_k,
        ;
        assert(b * vk > 0) by (nonlinear_arith)
            requires
                b > 0,
                vk > 0,
        ;
        lemma_half_even_scale(m * two_t, 1, b * vk);
    }
}

/// Scaling both parts of a fraction does not change how it rounds.
pub proof fn lemma_round_units_scale(n: nat, d: nat, c: nat)
    requires
        d > 0,
        c > 0,
    ensures
        round_units(n * c, d * c) == round_units(n, d),
    decreases n - d,
{
    let wide: nat = 0x20_0000_0000_0000;
    assert((n < d * wide) == (n * c < d * c * wide)) by (nonlinear_arith)
        requires
            c > 0,
    ;
    assert(d * c > 0) by (nonlinear_arith)
        requires
            c > 0,
            d > 0,
    ;
    if n < d * wide {
        lemma_half_even_scale(n, d, c);
    } else {
        lemma_round_units_scale(n, 2 * d, c);
        assert((2 * d) * c == 2 * (d * c)) by (nonlinear_arith);
    }
}

/// Equal fractions round alike.
pub proof fn lemma_round_units_same(n1: nat, d1: nat, n2: nat, d2: nat)
    requires
        d1 > 0,
        d2 > 0,
        n1 * d2 == n2 * d1,
    ensures
        round_units(n1, d1) == round_units(n2, d2),
{
    lemma_round_units_scale(n1, d1, d2);
    lemma_round_units_scale(n2, d2, d1);
    assert(d1 * d2 == d2 * d1) by (nonlinear_arith);
}

/// A number with a significand of 53 bits rounds to itself when less than a
/// quarter of its spacing is added to it or taken from it.
pub proof fn lemma_round_absorbs(sig: nat, k: nat, t: nat)
    requires
        0x10_0000_0000_0000 <= sig < 0x20_0000_0000_0000,
        k > 0,
        4 * t < pow2(k),
    ensures
        t <= sig * pow2(k),
        round_units(sig * pow2(k) + t, 1) == sig * pow2(k),
        round_units((sig * pow2(k) - t) as nat, 1) == sig * pow2(k),
{
    let p = pow2(k);
    let c52: nat = 0x10_0000_0000_0000;
    let c53: nat = 0x20_0000_0000_0000;
    lemma_pow2_pos(k);
    lemma_pow2_unfold(k);
    let up = sig * p + t;
    assert(c52 * p <= up) by (nonlinear_arith)
        requires
            c52 <= sig,
            up == sig * p + t,
    ;
    assert(up < c53 * p) by (nonlinear_arith)
        requires
            sig + 1 <= c53,
            4 * t < p,
            up == sig * p + t,
    ;
    assert(t <= sig * p) by (nonlinear_arith)
        requires
            1 <= sig,
            4 * t < p,
    ;
    lemma_round_at(up, 1, k);
    assert(1 * p == p);
    lemma_fundamental_div_mod_converse(up as int, p as int, sig as int, t as int);
    assert(p * sig == sig * p) by (nonlinear_arith);
    let down = (sig * p - t) as nat;
    if t == 0 {
    } else if sig > c52 {
        let q = (sig - 1) as nat;
        let r = (p - t) as nat;
        assert(down == q * p + r && c52 * p <= down < c53 * p) by (nonlinear_arith)
            requires
                c52 <= q,
                q + 2 <= c53,
                0 < r < p,
                down == sig * p - t,
                sig == q + 1,
                r == p - t,
        ;
        lemma_round_at(down, 1, k);
        lemma_fundamental_div_mod_converse(down as int, p as int, q as int, r as int);
    } else {
        let h = pow2((k - 1) as nat);
        lemma_pow2_pos((k - 1) as nat);
        let q = (c53 - 1) as nat;
        let r = (h - t) as nat;
        assert(down == q * h + r) by (nonlinear_arith)
            requires
                down == sig * p - t,
                sig == c52,
                c53 == 2 * c52,
                p == 2 * h,
                q == c53 - 1,
                r == h - t,
        ;
        assert(c52 * h <= down < c53 * h) by (nonlinear_arith)
            requires
                down == q * h + r,
                q >= c52,
                q + 1 == c53,
                0 <= r < h,
        ;
        lemma_round_at(down, 1, (k - 1) as nat);
        assert(1 * h == h);
        lemma_fundamental_div_mod_converse(down as int, h as int, q as int, r as int);
        assert(h * c53 == sig * p) by (nonlinear_arith)
            requires
                c53 == 2 * c52,
                sig == c52,
                p == 2 * h,
        ;
    }
}

/// Larger factors give larger squares.
proof fn lemma_square_grows(x: nat, y: nat)
    ensures
        x <= y <==> x * x <= y * y,
        x < y <==> x * x < y * y,
{
    assert((x <= y <==> x * x <= y * y) && (x < y <==> x * x < y * y)) by (nonlinear_arith);
}

/// Only one integer can be the rounded-down root.
proof fn lemma_floor_root(n: nat, d: nat, m: nat)
    requires
        d > 0,
        (m * d) * (m * d) <= n < ((m + 1) * d) * ((m + 1) * d),
    ensures
        floor_root(n, d) == m,
{
    let f = floor_root(n, d);
    assert((f * d) * (f * d) <= n < ((f + 1) * d) * ((f + 1) * d));
    lemma_square_grows((f + 1) * d, m * d);
    lemma_square_grows((m + 1) * d, f * d);
    assert(f + 1 <= m ==> (f + 1) * d <= m * d) by (nonlinear_arith);
    assert(m + 1 <= f ==> (m + 1) * d <= f * d) by (nonlinear_arith);
}

/// Roots round at the spacing `2^k` on the range that has that spacing.
proof fn lemma_root_at(n: nat, d: nat, k: nat)
    requires
        d > 0,
        n < (d * 0x20_0000_0000_0000 * pow2(k)) * (d * 0x20_0000_0000_0000 * pow2(k)),
        n >= (d * 0x10_0000_0000_0000 * pow2(k)) * (d * 0x10_0000_0000_0000 * pow2(k)),
    ensures
        round_root(n, d) == pow2(k) * half_even_root(n, d * pow2(k)),
    decreases k,
{
    if k == 0 {
        lemma2_to64();
        let p = pow2(k);
        let h = half_even_root(n, d);
        assert(d * p == d && p * h == h && d * 0x20_0000_0000_0000 * p == d
            * 0x20_0000_0000_0000) by (nonlinear_arith)
            requires
                p == 1,
        ;
    } else {
        let p = pow2((k - 1) as nat);
        lemma_pow2_unfold(k);
        lemma_pow2_pos((k - 1) as nat);
        let a = d * 0x10_0000_0000_0000 * (2 * p);
        let b = d * 0x20_0000_0000_0000;
        assert(a >= b) by (nonlinear_arith)
            requires
                a == d * 0x10_0000_0000_0000 * (2 * p),
                b == d * 0x20_0000_0000_0000,
                p > 0,
        ;
        lemma_square_grows(b, a);
        assert(d * 0x20_0000_0000_0000 * (2 * p) == (2 * d) * 0x20_0000_0000_0000 * p)
            by (nonlinear_arith);
        assert(d * 0x10_0000_0000_0000 * (2 * p) == (2 * d) * 0x10_0000_0000_0000 * p)
            by (nonlinear_arith);
        lemma_root_at(n, 2 * d, (k - 1) as nat);
        assert(d * (2 * p) == (2 * d) * p) by (nonlinear_arith);
        let h = half_even_root(n, d * pow2(k));
        assert(2 * (p * h) == (2 * p) * h) by (nonlinear_arith);
    }
}

/// The square of a scaled number.
proof fn lemma_square_scaled(x: nat, c: nat)
    ensures
        (x * c) * (x * c) == (x * x) * (c * c),
{
    assert((x * c) * (x * c) == (x * x) * (c * c)) by (nonlinear_arith);
}

/// How the root of `m` scaled by `4^e` rounds, from its integer root `w` of 63
/// bits.
pub proof fn lemma_root_scaled(m: nat, w: nat, e: nat)
    requires
        w * w <= m < (w + 1) * (w + 1),
        0x4000_0000_0000_0000 <= w < 0x8000_0000_0000_0000,
    ensures
        ({
            let q = w / 1024;
            let y = w % 1024;
            let h = if y > 512 || (y == 512 && (w * w != m || q % 2 == 1)) {
                q + 1
            } else {
                q
            };
            &&& round_root(m * (pow2(e) * pow2(e)), 1) == h * pow2(e + 10)
            &&& 0x10_0000_0000_0000 <= h <= 0x20_0000_0000_0000
        }),
{
    let q = w / 1024;
    let y = w % 1024;
    let c = pow2(e);
    let cc = c * c;
    let n = m * cc;
    let k = e + 10;
    let d = pow2(k);
    lemma2_to64();
    lemma_pow2_pos(e);
    lemma_pow2_adds(e, 10);
    assert(d == 1024 * c) by (nonlinear_arith)
        requires
            d == c * 1024,
    ;
    assert(cc > 0) by (nonlinear_arith)
        requires
            cc == c * c,
            c > 0,
    ;
    // The range.
    let low = 1 * 0x10_0000_0000_0000 * d;
    let high = 1 * 0x20_0000_0000_0000 * d;
    let l: nat = 0x4000_0000_0000_0000;
    let g: nat = 0x8000_0000_0000_0000;
    assert(low == l * c && high == g * c) by (nonlinear_arith)
        requires
            low == 1 * 0x10_0000_0000_0000 * d,
            high == 1 * 0x20_0000_0000_0000 * d,
            d == 1024 * c,
            l == 0x4000_0000_0000_0000,
            g == 0x8000_0000_0000_0000,
    ;
    lemma_square_scaled(l, c);
    lemma_square_scaled(g, c);
    lemma_square_grows(l, w);
    lemma_square_grows(w + 1, g);
    lemma_scale_order(l * l, m, cc);
    lemma_scale_order(m, g * g, cc);
    lemma_root_at(n, 1, k);
    assert(1 * d == d);
    // The integer part.
    let a = q * 1024;
    let b = (q + 1) * 1024;
    assert(q * d == a * c && (q + 1) * d == b * c) by (nonlinear_arith)
        requires
            a == q * 1024,
            b == (q + 1) * 1024,
            d == 1024 * c,
    ;
    lemma_square_scaled(a, c);
    lemma_square_scaled(b, c);
    lemma_square_grows(a, w);
    lemma_square_grows(w + 1, b);
    lemma_scale_order(a * a, m, cc);
    lemma_scale_order(m, b * b, cc);
    lemma_floor_root(n, d, q);
    // The half-way point.
    let half = q * 1024 + 512;
    let middle = (2 * q + 1) * d;
    assert(middle == (2 * half) * c) by (nonlinear_arith)
        requires
            middle == (2 * q + 1) * d,
            half == q * 1024 + 512,
            d == 1024 * c,
    ;
    lemma_square_scaled(2 * half, c);
    assert((2 * half) * (2 * half) == 4 * (half * half)) by (nonlinear_arith);
    assert((4 * (half * half)) * cc == 4 * ((half * half) * cc)) by (nonlinear_arith);
    lemma_scale_order(half * half, m, cc);
    lemma_scale_order(m, half * half, cc);
    lemma_square_grows(half, w);
    lemma_square_grows(w, half);
    lemma_square_grows(w + 1, half);
    let h = half_even_root(n, d);
    assert(d * h == h * d) by (nonlinear_arith);
}

/// Scaling keeps the order.
proof fn lemma_scale_order(x: nat, y: nat, c: nat)
    requires
        c > 0,
    ensures
        x <= y <==> x * c <= y * c,
        x < y <==> x * c < y * c,
{
    assert((x <= y <==> x * c <= y * c) && (x < y <==> x * c < y * c)) by (nonlinear_arith)
        requires
            c > 0,
    ;
}

} // verus!
