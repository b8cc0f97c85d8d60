//! The mathematical model of binary64 numbers and of their correctly rounded
//! operations.
//!
//! A finite number is a whole multiple of `2^-1074`, the smallest positive
//! binary64 number. The model keeps that multiple as a natural number of
//! *units* beside a sign, so that sums, products and quotients are exact
//! integers or fractions before they are rounded.
use vstd::arithmetic::power2::pow2;
use vstd::prelude::*;

verus! {

/// The value that a binary64 number stands for.
pub enum Value {
    /// Not a number.
    Nan,
    /// An infinity.
    Infinite { neg: bool },
    /// `units * 2^-1074`, negated where `neg` holds; zero has both signs.
    Finite { neg: bool, units: nat },
}

/// `n / d` rounded to the nearest integer, ties to the even one.
pub open spec fn half_even(n: nat, d: nat) -> nat {
    let q = n / d;
    let r = n % d;
    if 2 * r < d {
        q
    } else if 2 * r > d {
        q + 1
    } else if q % 2 == 0 {
        q
    } else {
        q + 1
    }
}

/// `n / d` units rounded to a number of units with a significand of at most 53
/// bits: below `2^53` units every integer is one, and from there on the spacing
/// doubles with each power of two.
pub open spec fn round_units(n: nat, d: nat) -> nat
    decreases n - d,
{
    if d == 0 || n < d * 0x20_0000_0000_0000 {
        half_even(n, d)
    } else {
        2 * round_units(n, 2 * d)
    }
}

/// The number of units in one.
pub open spec fn one_units() -> nat {
    pow2(1074)
}

/// The binary64 value nearest to `n / d` units, infinite where that is out of
/// range.
pub open spec fn rounded(neg: bool, n: nat, d: nat) -> Value {
    let units = round_units(n, d);
    if units >= pow2(2098) {
        Value::Infinite { neg }
    } else {
        Value::Finite { neg, units }
    }
}

/// The largest `m` with `m * d` at most the square root of `n`.
pub open spec fn floor_root(n: nat, d: nat) -> nat {
    choose|m: nat| (#[trigger] (m * d)) * (m * d) <= n < ((m + 1) * d) * ((m + 1) * d)
}

/// The square root of `n`, divided by `d`, rounded to the nearest integer, ties
/// to the even one.
pub open spec fn half_even_root(n: nat, d: nat) -> nat {
    let m = floor_root(n, d);
    let middle = (2 * m + 1) * d;
    if 4 * n < middle * middle {
        m
    } else if 4 * n > middle * middle {
        m + 1
    } else if m % 2 == 0 {
        m
    } else {
        m + 1
    }
}

/// The square root of `n`, divided by `d`, in units, rounded to a significand of
/// at most 53 bits.
pub open spec fn round_root(n: nat, d: nat) -> nat
    decreases n - d,
{
    if d == 0 || n < (d * 0x20_0000_0000_0000) * (d * 0x20_0000_0000_0000) {
        half_even_root(n, d)
    } else {
        proof {
            assert(2 * d <= n) by (nonlinear_arith)
                requires
                    d > 0,
                    n >= (d * 0x20_0000_0000_0000) * (d * 0x20_0000_0000_0000),
            ;
        }
        2 * round_root(n, 2 * d)
    }
}

/// The magnitude of an integer.
pub open spec fn magnitude(i: int) -> nat {
    if i < 0 {
        (-i) as nat
    } else {
        i as nat
    }
}

impl Value {
    /// The units of a finite number with their sign.
    pub open spec fn signed(self) -> int {
        match self {
            Value::Finite { neg, units } => if neg {
                -(units as int)
            } else {
                units as int
            },
            _ => 0,
        }
    }

    /// The decimal fraction `n / d`.
    #[verifier::opaque]
    pub open spec fn ratio(n: nat, d: nat) -> Value {
        rounded(false, n * one_units(), d)
    }

    /// The natural number `n`.
    #[verifier::opaque]
    pub open spec fn whole(n: nat) -> Value {
        rounded(false, n * one_units(), 1)
    }

    /// `-self`.
    #[verifier::opaque]
    pub open spec fn negated(self) -> Value {
        match self {
            Value::Nan => Value::Nan,
            Value::Infinite { neg } => Value::Infinite { neg: !neg },
            Value::Finite { neg, units } => Value::Finite { neg: !neg, units },
        }
    }

    /// `|self|`.
    #[verifier::opaque]
    pub open spec fn absolute(self) -> Value {
        match self {
            Value::Nan => Value::Nan,
            Value::Infinite { neg } => Value::Infinite { neg: false },
            Value::Finite { neg, units } => Value::Finite { neg: false, units },
        }
    }

    /// `self + other`.
    #[verifier::opaque]
    pub open spec fn plus(self, other: Value) -> Value {
        match (self, other) {
            (Value::Nan, _) => Value::Nan,
            (_, Value::Nan) => Value::Nan,
            (Value::Infinite { neg: a }, Value::Infinite { neg: b }) => if a == b {
                self
            } else {
                Value::Nan
            },
            (Value::Infinite { neg: a }, _) => self,
            (_, Value::Infinite { neg: b }) => other,
            (Value::Finite { neg: a, units: x }, Value::Finite { neg: b, units: y }) => {
                let sum = self.signed() + other.signed();
                rounded(
                    if sum == 0 {
                        a && b
                    } else {
                        sum < 0
                    },
                    magnitude(sum),
                    1,
                )
            },
        }
    }

    /// `self - other`.
    #[verifier::opaque]
    pub open spec fn minus(self, other: Value) -> Value {
        self.plus(other.negated())
    }

    /// `self * other`.
    #[verifier::opaque]
    pub open spec fn times(self, other: Value) -> Value {
        match (self, other) {
            (Value::Nan, _) => Value::Nan,
            (_, Value::Nan) => Value::Nan,
            (Value::Infinite { neg: a }, Value::Infinite { neg: b }) => Value::Infinite {
                neg: a != b,
            },
            (Value::Infinite { neg: a }, Value::Finite { neg: b, units: y }) => if y == 0 {
                Value::Nan
            } else {
                Value::Infinite { neg: a != b }
            },
            (Value::Finite { neg: a, units: x }, Value::Infinite { neg: b }) => if x == 0 {
                Value::Nan
            } else {
                Value::Infinite { neg: a != b }
            },
            (Value::Finite { neg: a, units: x }, Value::Finite { neg: b, units: y }) => rounded(
                a != b,
                x * y,
                one_units(),
            ),
        }
    }

    /// `self / other`.
    #[verifier::opaque]
    pub open spec fn over(self, other: Value) -> Value {
        match (self, other) {
            (Value::Nan, _) => Value::Nan,
            (_, Value::Nan) => Value::Nan,
            (Value::Infinite { neg: a }, Value::Infinite { neg: b }) => Value::Nan,
            (Value::Infinite { neg: a }, Value::Finite { neg: b, units: y }) => Value::Infinite {
                neg: a != b,
            },
            (Value::Finite { neg: a, units: x }, Value::Infinite { neg: b }) => Value::Finite {
                neg: a != b,
                units: 0,
            },
            (Value::Finite { neg: a, units: x }, Value::Finite { neg: b, units: y }) => if y == 0 {
                if x == 0 {
                    Value::Nan
                } else {
                    Value::Infinite { neg: a != b }
                }
            } else {
                rounded(a != b, x * one_units(), y)
            },
        }
    }

    /// The square root.
    #[verifier::opaque]
    pub open spec fn root(self) -> Value {
        match self {
            Value::Nan => Value::Nan,
            Value::Infinite { neg } => if neg {
                Value::Nan
            } else {
                self
            },
            Value::Finite { neg, units } => if units == 0 {
                self
            } else if neg {
                Value::Nan
            } else {
                Value::Finite { neg: false, units: round_root(units * one_units(), 1) }
            },
        }
    }

    /// The largest integer that is not above `self`.
    #[verifier::opaque]
    pub open spec fn floor(self) -> Value {
        match self {
            Value::Finite { neg, units } => {
                let down = units / one_units();
                let part = units % one_units();
                rounded(
                    neg,
                    (if neg && part > 0 {
                        down + 1
                    } else {
                        down
                    }) * one_units(),
                    1,
                )
            },
            _ => self,
        }
    }

    /// The smallest integer that is not below `self`, held to the range of
    /// `usize`; zero for what is not a number.
    pub open spec fn ceiling(self) -> nat {
        match self {
            Value::Nan => 0,
            Value::Infinite { neg } => if neg {
                0
            } else {
                usize::MAX as nat
            },
            Value::Finite { neg, units } => {
                let down = units / one_units();
                let part = units % one_units();
                let up = if part > 0 {
                    down + 1
                } else {
                    down
                };
                if neg {
                    0
                } else if up > usize::MAX {
                    usize::MAX as nat
                } else {
                    up
                }
            },
        }
    }

    /// `self < other`, false where either is not a number.
    #[verifier::opaque]
    pub open spec fn below(self, other: Value) -> bool {
        match (self, other) {
            (Value::Nan, _) => false,
            (_, Value::Nan) => false,
            (Value::Infinite { neg: a }, Value::Infinite { neg: b }) => a && !b,
            (Value::Infinite { neg: a }, _) => a,
            (_, Value::Infinite { neg: b }) => !b,
            (Value::Finite { neg: a, units: x }, Value::Finite { neg: b, units: y }) => self.signed()
                < other.signed(),
        }
    }

    /// `self == other`, false where either is not a number.
    #[verifier::opaque]
    pub open spec fn equals(self, other: Value) -> bool {
        match (self, other) {
            (Value::Infinite { neg: a }, Value::Infinite { neg: b }) => a == b,
            (Value::Finite { neg: a, units: x }, Value::Finite { neg: b, units: y }) => self.signed()
                == other.signed(),
            _ => false,
        }
    }

    /// `self <= other`, false where either is not a number.
    pub open spec fn at_most(self, other: Value) -> bool {
        self.below(other) || self.equals(other)
    }

    /// The smaller of two numbers; the other one where one is not a number.
    #[verifier::opaque]
    pub open spec fn lesser(self, other: Value) -> Value {
        if self is Nan {
            other
        } else if other.below(self) {
            other
        } else {
            self
        }
    }

    /// The larger of two numbers; the other one where one is not a number.
    #[verifier::opaque]
    pub open spec fn greater(self, other: Value) -> Value {
        if self is Nan {
            other
        } else if self.below(other) {
            other
        } else {
            self
        }
    }

    /// `self` held between `low` and `high`.
    #[verifier::opaque]
    pub open spec fn clamped(self, low: Value, high: Value) -> Value {
        if self.below(low) {
            low
        } else if high.below(self) {
            high
        } else {
            self
        }
    }

    /// `self + other`, for the operator.
    #[verifier::inline]
    pub open spec fn spec_add(self, other: Value) -> Value {
        self.plus(other)
    }

    /// `self - other`, for the operator.
    #[verifier::inline]
    pub open spec fn spec_sub(self, other: Value) -> Value {
        self.minus(other)
    }

    /// `self * other`, for the operator.
    #[verifier::inline]
    pub open spec fn spec_mul(self, other: Value) -> Value {
        self.times(other)
    }

    /// `self / other`, for the operator.
    #[verifier::inline]
    pub open spec fn spec_euclidean_or_real_div(self, other: Value) -> Value {
        self.over(other)
    }
}

/// The natural number `n` as a binary64 value.
#[verifier::inline]
pub open spec fn exactly(n: nat) -> Value {
    Value::whole(n)
}

/// The binary64 value nearest to `n / d`.
#[verifier::inline]
pub open spec fn near(n: nat, d: nat) -> Value {
    Value::ratio(n, d)
}

} // verus!
