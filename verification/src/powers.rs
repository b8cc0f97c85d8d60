//! What powers and roots are taken to do.
//!
//! Powers come from the caller's mathematics. Laws that rest on how they behave
//! say so of the powers that they compare, with a condition that holds of all
//! positive exponents.
use vstd::prelude::*;

use crate::order::{finite, number, place};
use crate::query::Table;
use crate::value::{one_units, Value};

verus! {

/// Whether the powers of `x` and of `y`, numbers from zero to one of which the second
/// is no smaller, are such numbers too, with the exponent `e`.
pub open spec fn rises(t: Table, e: Value, x: Value, y: Value) -> bool {
    finite(x) && finite(y) && 0 <= place(x) <= place(y) <= one_units() ==> {
        &&& finite(t.power(x, e))
        &&& finite(t.power(y, e))
        &&& 0 <= place(t.power(x, e)) <= place(t.power(y, e)) <= one_units()
    }
}

/// Whether the powers of `x` and of `y`, numbers from zero on of which the second is no
/// smaller, are such numbers too, with the exponent `e`.
pub open spec fn grows(t: Table, e: Value, x: Value, y: Value) -> bool {
    number(x) && number(y) && 0 <= place(x) <= place(y) ==> {
        &&& number(t.power(x, e))
        &&& number(t.power(y, e))
        &&& 0 <= place(t.power(x, e)) <= place(t.power(y, e))
    }
}

/// Whether the cube roots of `x` and of `y` are in their order.
pub open spec fn roots_grow(t: Table, x: Value, y: Value) -> bool {
    number(x) && number(y) && 0 <= place(x) <= place(y) ==> {
        &&& number(t.cbrt(x))
        &&& number(t.cbrt(y))
        &&& 0 <= place(t.cbrt(x)) <= place(t.cbrt(y))
    }
}

} // verus!
