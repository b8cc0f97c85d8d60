//! Numbers that are not negative, where they are numbers.
//!
//! Sums, products and quotients of such numbers are such numbers too, even where
//! they overflow or are no numbers any more.
use vstd::arithmetic::power2::{lemma_pow2_pos, pow2};
use vstd::prelude::*;

use crate::order::{
    finite, lemma_clamped, lemma_fits, lemma_held, lemma_inside, lemma_lesser, lemma_minus,
    lemma_nan, lemma_one, lemma_order, lemma_over, lemma_over_order, lemma_proper,
    lemma_round_order, lemma_settle_fits, lemma_settle_order, lemma_sum, lemma_times,
    lemma_times_order, lemma_times_share, number, place, proper,
};
use crate::value::{exactly, one_units, Value};

verus! {

/// Whether a value is not negative, where it is a number.
pub open spec fn not_negative(v: Value) -> bool {
    proper(v) && (v is Nan || 0 <= place(v))
}

/// Whether a value is no more than `top` and not negative, where it is a number.
pub open spec fn up_to(v: Value, top: Value) -> bool {
    not_negative(v) && (v is Nan || place(v) <= place(top))
}

/// What is not negative is not below zero.
pub proof fn lemma_not_below(v: Value)
    requires
        not_negative(v),
    ensures
        !v.below(exactly(0)),
        !(v is Nan) ==> exactly(0).at_most(v),
{
    lemma_one();
    if v is Nan {
        reveal(Value::below);
    } else {
        lemma_order(v, exactly(0));
        lemma_order(exactly(0), v);
    }
}

/// Sums of what is not negative are not negative.
pub proof fn lemma_add(x: Value, y: Value)
    requires
        not_negative(x),
        not_negative(y),
    ensures
        not_negative(x + y),
{
    if x is Nan || y is Nan {
        lemma_nan(x, y);
    } else {
        lemma_sum(x, y);
    }
}

/// Products of what is not negative are not negative.
pub proof fn lemma_multiply(x: Value, y: Value)
    requires
        not_negative(x),
        not_negative(y),
    ensures
        not_negative(x * y),
{
    lemma_pow2_pos(2098);
    if x is Nan || y is Nan {
        lemma_nan(x, y);
    } else if finite(x) && finite(y) {
        lemma_times(x, y);
    } else {
        reveal(Value::times);
    }
}

/// Quotients of what is not negative by a positive number are not negative.
pub proof fn lemma_divide(x: Value, y: Value)
    requires
        not_negative(x),
        number(y),
        0 < place(y),
    ensures
        not_negative(x / y),
{
    lemma_pow2_pos(2098);
    lemma_one();
    lemma_proper(x, y);
    if x is Nan {
        lemma_nan(x, y);
    } else if finite(y) {
        lemma_over(x, y);
    } else {
        reveal(Value::over);
    }
}

/// The larger and the smaller of what is not negative are not negative.
pub proof fn lemma_pick(x: Value, y: Value)
    requires
        not_negative(x),
        not_negative(y),
    ensures
        not_negative(x.greater(y)),
        not_negative(x.lesser(y)),
{
    reveal(Value::greater);
    reveal(Value::lesser);
}

/// What is held from zero on is not negative.
pub proof fn lemma_from_zero(x: Value)
    requires
        proper(x),
    ensures
        not_negative(x.greater(exactly(0))),
{
    lemma_one();
    reveal(Value::greater);
    if !(x is Nan) {
        lemma_order(x, exactly(0));
    }
}

/// A magnitude is not negative.
pub proof fn lemma_magnitude(x: Value)
    requires
        proper(x),
    ensures
        not_negative(x.absolute()),
{
    reveal(Value::absolute);
    lemma_pow2_pos(2098);
}

/// A part of a number is no more than it.
pub proof fn lemma_part_of(x: Value, part: Value)
    requires
        finite(x),
        0 <= place(x),
        up_to(part, exactly(1)),
    ensures
        up_to(x * part, x),
{
    lemma_one();
    if part is Nan {
        lemma_nan(x, part);
    } else {
        lemma_inside(exactly(1));
        lemma_inside(part);
        lemma_times_share(x, part);
    }
}

/// A part of what is up to a number is up to that number.
pub proof fn lemma_part_within(x: Value, top: Value, part: Value)
    requires
        finite(top),
        up_to(x, top),
        up_to(part, exactly(1)),
    ensures
        up_to(x * part, top),
{
    if x is Nan {
        lemma_nan(x, part);
    } else {
        lemma_inside(x);
        lemma_inside(top);
        lemma_part_of(x, part);
    }
}

/// What is left of a number after something up to it is taken off, is up to it.
pub proof fn lemma_left(top: Value, x: Value)
    requires
        finite(top),
        up_to(x, top),
    ensures
        up_to(top - x, top),
{
    if x is Nan {
        lemma_nan(top, x);
    } else {
        lemma_one();
        lemma_inside(x);
        lemma_inside(top);
        lemma_minus(top, x);
        lemma_settle_fits(top);
        lemma_settle_fits(exactly(0));
        lemma_settle_order(place(top) - place(x), 1, place(top), 1);
        lemma_settle_order(0, 1, place(top) - place(x), 1);
    }
}

/// What is held between zero and a number is up to it.
pub proof fn lemma_held_up_to(x: Value, top: Value)
    requires
        proper(x),
        finite(top),
        0 <= place(top),
    ensures
        up_to(x.clamped(exactly(0), top), top),
{
    lemma_one();
    lemma_held(x, exactly(0), top);
    if x is Nan {
        reveal(Value::clamped);
        reveal(Value::below);
    } else {
        lemma_clamped(x, exactly(0), top);
    }
}

/// What lies between zero and one, where it is a number, is up to one.
pub proof fn lemma_up_to_one(x: Value)
    requires
        proper(x),
        !(x is Nan) ==> exactly(0).at_most(x) && x.at_most(exactly(1)),
    ensures
        up_to(x, exactly(1)),
{
    lemma_one();
    if !(x is Nan) {
        lemma_order(exactly(0), x);
        lemma_order(x, exactly(1));
    }
}

/// Differences of what binary64 has, it has too.
pub proof fn lemma_minus_proper(x: Value, y: Value)
    requires
        proper(x),
        proper(y),
    ensures
        proper(x - y),
{
    reveal(Value::minus);
    reveal(Value::negated);
    lemma_proper(x, y.negated());
}

/// The quotient of what is not above a positive number by that number is up to
/// one.
pub proof fn lemma_small_over(x: Value, y: Value)
    requires
        x is Finite,
        finite(y),
        0 < place(y),
        0 <= x.signed() <= place(y),
    ensures
        up_to(x / y, exactly(1)),
{
    reveal(Value::over);
    lemma_proper(x, y);
    lemma_one();
    lemma_settle_fits(exactly(1));
    lemma_fits(1, 1074);
    lemma_fits(0, 0);
    let (n, d, u) = (x->units, y->units, one_units());
    assert(0 * pow2(0) == 0 && 1 * pow2(1074) == u);
    lemma_round_order(0, d, 0, 1);
    assert((n * u) * 1 <= u * d) by (nonlinear_arith)
        requires
            n <= d,
    ;
    lemma_round_order(n * u, d, u, 1);
    assert(n == 0 ==> n * u == 0) by (nonlinear_arith);
    lemma_inside(exactly(1));
}

/// Whether a value is at least `low`, which is not negative, where it is a number.
pub open spec fn from_on(v: Value, low: Value) -> bool {
    v is Nan || (number(low) && number(v) && 0 <= place(low) <= place(v))
}

/// A sum with what is not negative is no smaller.
pub proof fn lemma_add_from(x: Value, low: Value, y: Value)
    requires
        from_on(x, low),
        not_negative(y),
    ensures
        from_on(x + y, low),
{
    if x is Nan || y is Nan {
        lemma_nan(x, y);
    } else {
        lemma_sum(x, y);
    }
}

/// Products keep what their factors are at least.
pub proof fn lemma_multiply_from(x: Value, low: Value, y: Value, least: Value)
    requires
        from_on(x, low),
        from_on(y, least),
        finite(least),
        0 < place(least),
    ensures
        from_on(x * y, low * least),
{
    lemma_pow2_pos(2098);
    if x is Nan || y is Nan {
        lemma_nan(x, y);
    } else {
        lemma_inside(x);
        lemma_inside(y);
        lemma_inside(low);
        lemma_multiply(x, y);
        lemma_multiply(low, least);
        if finite(low) {
            lemma_times(low, least);
        } else {
            reveal(Value::times);
        }
        lemma_inside(low * least);
        if finite(x) && finite(y) {
            lemma_times_order(low, least, x, y);
        } else {
            reveal(Value::times);
        }
    }
}

/// So do products with the same factor.
pub proof fn lemma_multiply_same(x: Value, low: Value, y: Value)
    requires
        from_on(x, low),
        finite(y),
        0 <= place(y),
    ensures
        from_on(x * y, low * y),
{
    lemma_pow2_pos(2098);
    if x is Nan {
        lemma_nan(x, y);
    } else {
        lemma_inside(x);
        lemma_inside(low);
        if finite(x) {
            lemma_times(x, y);
            lemma_times(low, y);
            lemma_times_order(low, y, x, y);
        } else {
            reveal(Value::times);
            if !((x * y) is Nan) {
                if finite(low) {
                    lemma_times(low, y);
                }
                lemma_inside(low * y);
            }
        }
    }
}

/// What is at least a number is at least a part of it.
pub proof fn lemma_part_from(x: Value, low: Value, part: Value)
    requires
        from_on(x, low),
        finite(part),
        0 < place(part) <= one_units(),
    ensures
        from_on(x, low * part),
{
    lemma_pow2_pos(2098);
    if !(x is Nan) {
        lemma_inside(low);
        if finite(low) {
            lemma_times_share(low, part);
        } else {
            reveal(Value::times);
        }
    }
}

/// What is left of a number after something up to a smaller one is at least what is
/// left after that one.
pub proof fn lemma_left_from(top: Value, x: Value, most: Value)
    requires
        finite(top),
        finite(most),
        up_to(x, most),
        place(most) <= place(top),
    ensures
        from_on(top - x, top - most),
{
    lemma_one();
    if x is Nan {
        lemma_nan(top, x);
    } else {
        lemma_inside(x);
        lemma_inside(most);
        lemma_minus(top, x);
        lemma_minus(top, most);
        lemma_settle_fits(exactly(0));
        lemma_settle_order(0, 1, place(top) - place(most), 1);
        lemma_settle_order(place(top) - place(most), 1, place(top) - place(x), 1);
    }
}

/// The quotient of what is not negative by a positive number, held to one: a share, and
/// one where they are the same.
pub proof fn lemma_ratio_share(x: Value, y: Value)
    requires
        not_negative(x),
        number(y),
        0 < place(y),
    ensures
        finite((x / y).lesser(exactly(1))),
        0 <= place((x / y).lesser(exactly(1))) <= one_units(),
        x == y ==> place((x / y).lesser(exactly(1))) == one_units(),
{
    lemma_one();
    lemma_pow2_pos(2098);
    lemma_divide(x, y);
    let r = x / y;
    if r is Nan {
        reveal(Value::lesser);
    } else {
        lemma_lesser(r, exactly(1));
        lemma_inside(exactly(1));
        lemma_inside(r.lesser(exactly(1)));
        if x == y {
            reveal(Value::over);
            lemma_over(x, x);
            lemma_settle_fits(exactly(1));
            let (p, u) = (place(x), one_units());
            assert(p * u == u * p) by (nonlinear_arith);
            lemma_settle_order(p * u, p as nat, u as int, 1);
            lemma_settle_order(u as int, 1, p * u, p as nat);
        }
    }
}

/// Such quotients by the same number keep the order.
pub proof fn lemma_ratio_order(x: Value, z: Value, y: Value)
    requires
        number(x) && number(z),
        0 <= place(x) <= place(z),
        finite(y),
        0 < place(y),
    ensures
        place((x / y).lesser(exactly(1))) <= place((z / y).lesser(exactly(1))),
{
    lemma_one();
    lemma_over(x, y);
    lemma_over(z, y);
    lemma_over_order(x, z, y);
    lemma_lesser(x / y, exactly(1));
    lemma_lesser(z / y, exactly(1));
}

/// The order of terms and factors does not matter.
pub proof fn lemma_commutes(x: Value, y: Value)
    ensures
        x + y == y + x,
        x * y == y * x,
{
    reveal(Value::plus);
    reveal(Value::times);
    if x is Finite && y is Finite {
        let (a, b) = (x->units, y->units);
        assert(a * b == b * a) by (nonlinear_arith);
    }
}

/// A positive factor keeps the order of numbers from zero on, and one from one on is
/// no smaller than the factor afterwards.
pub proof fn lemma_factor_order(c: Value, x: Value, y: Value)
    requires
        finite(c),
        0 < place(c),
        number(x) && number(y),
        0 <= place(x) <= place(y),
    ensures
        number(c * x) && number(c * y),
        0 <= place(c * x) <= place(c * y),
        one_units() <= place(y) ==> place(c) <= place(c * y),
{
    lemma_pow2_pos(2098);
    lemma_one();
    lemma_inside(x);
    lemma_inside(y);
    lemma_inside(c);
    lemma_multiply(c, x);
    lemma_multiply(c, y);
    if finite(y) {
        lemma_times(c, x);
        lemma_times(c, y);
        lemma_times_order(c, x, c, y);
        lemma_settle_fits(c);
        let (p, q, u) = (place(c), place(y), one_units());
        if u <= q {
            assert(p * u <= (p * q) * 1) by (nonlinear_arith)
                requires
                    p > 0,
                    u <= q,
            ;
            lemma_settle_order(p, 1, p * q, u);
        }
    } else {
        reveal(Value::times);
        if finite(x) {
            lemma_times(c, x);
        }
        lemma_inside(c * x);
    }
}

/// A positive number stays positive under a factor from one on.
pub proof fn lemma_large_times(x: Value, y: Value)
    requires
        number(x),
        number(y),
        0 < place(x),
        one_units() <= place(y),
    ensures
        number(x * y),
        place(x) <= place(x * y),
{
    lemma_pow2_pos(2098);
    lemma_one();
    lemma_inside(x);
    lemma_inside(y);
    if finite(x) {
        lemma_factor_order(x, exactly(0), y);
    } else {
        reveal(Value::times);
    }
}

/// A positive finite number times a number from zero on is a number.
pub proof fn lemma_some_times(x: Value, y: Value)
    requires
        finite(x),
        0 < place(x),
        number(y),
        0 <= place(y),
    ensures
        number(x * y),
        0 <= place(x * y),
{
    lemma_one();
    lemma_factor_order(x, y, y);
}

} // verus!
