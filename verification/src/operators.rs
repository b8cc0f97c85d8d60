//! The arithmetic operators on [`Double`], and short names for its literals.
use vstd::prelude::*;
use vstd::std_specs::ops::{AddSpecImpl, DivSpecImpl, MulSpecImpl, SubSpecImpl};

use crate::double::Double;
use crate::value::{exactly, near};

verus! {

impl core::ops::Add for Double {
    type Output = Double;

    fn add(self, rhs: Double) -> (r: Double)
        ensures
            r@ == self@ + rhs@,
    {
        self.plus(rhs)
    }
}

impl AddSpecImpl for Double {
    open spec fn obeys_add_spec() -> bool {
        false
    }

    open spec fn add_req(self, rhs: Double) -> bool {
        true
    }

    open spec fn add_spec(self, rhs: Double) -> Double {
        arbitrary()
    }
}

impl core::ops::Sub for Double {
    type Output = Double;

    fn sub(self, rhs: Double) -> (r: Double)
        ensures
            r@ == self@ - rhs@,
    {
        self.minus(rhs)
    }
}

impl SubSpecImpl for Double {
    open spec fn obeys_sub_spec() -> bool {
        false
    }

    open spec fn sub_req(self, rhs: Double) -> bool {
        true
    }

    open spec fn sub_spec(self, rhs: Double) -> Double {
        arbitrary()
    }
}

impl core::ops::Mul for Double {
    type Output = Double;

    fn mul(self, rhs: Double) -> (r: Double)
        ensures
            r@ == self@ * rhs@,
    {
        self.times(rhs)
    }
}

impl MulSpecImpl for Double {
    open spec fn obeys_mul_spec() -> bool {
        false
    }

    open spec fn mul_req(self, rhs: Double) -> bool {
        true
    }

    open spec fn mul_spec(self, rhs: Double) -> Double {
        arbitrary()
    }
}

impl core::ops::Div for Double {
    type Output = Double;

    fn div(self, rhs: Double) -> (r: Double)
        ensures
            r@ == self@ / rhs@,
    {
        self.over(rhs)
    }
}

impl DivSpecImpl for Double {
    open spec fn obeys_div_spec() -> bool {
        false
    }

    open spec fn div_req(self, rhs: Double) -> bool {
        true
    }

    open spec fn div_spec(self, rhs: Double) -> Double {
        arbitrary()
    }
}

/// The natural number `n`.
pub fn whole(n: u64) -> (r: Double)
    ensures
        r@ == exactly(n as nat),
{
    Double::whole(n)
}

/// The number nearest to the decimal fraction `n / d`.
pub fn ratio(n: u64, d: u64) -> (r: Double)
    requires
        d > 0,
    ensures
        r@ == near(n as nat, d as nat),
{
    Double::ratio(n, d)
}

} // verus!
