//! A small generator of random numbers.
use vstd::prelude::*;

verus! {

/// The state that follows a state.
pub open spec fn state_after(x: u64) -> u64 {
    let a = x ^ (x << 13);
    let b = a ^ (a >> 7);
    b ^ (b << 17)
}

/// A number from `lower` up to but without `upper`, and the state after it. No
/// number is drawn where there is none, and `lower` stands in.
pub open spec fn drawn(x: u64, lower: u32, upper: u32) -> (u32, u64) {
    if lower >= upper {
        (lower, x)
    } else {
        let next = state_after(x);
        ((lower + next % (upper - lower) as u64) as u32, next)
    }
}

/// A place in a list of `len` entries, and the state after it.
pub open spec fn drawn_place(x: u64, len: nat) -> (u32, u64) {
    drawn(x, 0, len as u32)
}

/// A place in a list of `len` entries or none, each half of the time, and the
/// state after it.
pub open spec fn drawn_optional(x: u64, len: nat) -> (Option<u32>, u64) {
    let (side, next) = drawn(x, 0, 2);
    if side == 0 {
        (None, next)
    } else {
        let (place, last) = drawn_place(next, len);
        (Some(place), last)
    }
}

/// An xorshift generator.
#[derive(Clone, Copy, Debug)]
pub struct SimpleRng(pub u64);

impl SimpleRng {
    /// A generator that starts at a seed.
    pub fn new(seed: u64) -> (r: Self)
        ensures
            r.0 == seed,
    {
        SimpleRng(seed)
    }

    /// The next number, which is the next state.
    pub fn next_u64(&mut self) -> (r: u64)
        ensures
            r == state_after(old(self).0),
            final(self).0 == r,
    {
        let mut x: u64 = self.0;
        x = x ^ (x << 13);
        x = x ^ (x >> 7);
        x = x ^ (x << 17);
        self.0 = x;
        x
    }

    /// A number from `lower` up to but without `upper`; `lower` where there is
    /// none.
    pub fn gen_range(&mut self, lower: u32, upper: u32) -> (r: u32)
        ensures
            (r, final(self).0) == drawn(old(self).0, lower, upper),
            lower < upper ==> lower <= r < upper,
            lower >= upper ==> r == lower,
    {
        if lower >= upper {
            lower
        } else {
            let range: u64 = (upper - lower) as u64;
            let value: u64 = self.next_u64();
            lower + (value % range) as u32
        }
    }

    /// One of some values.
    pub fn choose_one<'a, T>(&mut self, values: &'a [T]) -> (r: &'a T)
        requires
            values@.len() > 0,
        ensures
            ({
                let (place, next) = drawn_place(old(self).0, values@.len());
                &&& place < values@.len()
                &&& *r == values@[place as int]
                &&& final(self).0 == next
            }),
    {
        let len: usize = values.len();
        #[verifier::truncate]
        let short: u32 = len as u32;
        proof {
            assert(len as u32 <= len) by (bit_vector);
            assert(short == values@.len() as u32);
        }
        let index: usize = self.gen_range(0, short) as usize;
        &values[index]
    }

    /// One of some values or none, each half of the time.
    pub fn choose_optional<'a, T>(&mut self, values: &'a [T]) -> (r: Option<&'a T>)
        requires
            values@.len() > 0,
        ensures
            ({
                let (choice, next) = drawn_optional(old(self).0, values@.len());
                &&& final(self).0 == next
                &&& match choice {
                    Some(place) => place < values@.len() && r == Some(&values@[place as int]),
                    None => r is None,
                }
            }),
    {
        if self.gen_range(0, 2) == 0 {
            None
        } else {
            Some(self.choose_one(values))
        }
    }
}

/// A generator that starts at zero stays there, and no other one ever comes to
/// zero.
pub proof fn law_zero_is_apart(x: u64)
    ensures
        state_after(x) == 0 <==> x == 0,
{
    let a = x ^ (x << 13);
    let b = a ^ (a >> 7);
    assert(x ^ (x << 13) == 0 <==> x == 0) by (bit_vector);
    assert(a ^ (a >> 7) == 0 <==> a == 0) by (bit_vector);
    assert(b ^ (b << 17) == 0 <==> b == 0) by (bit_vector);
}

/// A number that is drawn lies in its range, whatever the state.
pub proof fn law_draws_stay_in_range(x: u64, lower: u32, upper: u32)
    requires
        lower < upper,
    ensures
        lower <= drawn(x, lower, upper).0 < upper,
{
}

} // verus!
