//! Random and given plays.
pub mod args;
pub mod laws;
pub mod mods;
pub mod rng;
pub mod text;

use vstd::prelude::*;

use crate::double::Double;
use crate::operators::whole;
use crate::play::rng::{drawn, SimpleRng};
use crate::query::optional;
use crate::value::{exactly, Value};

verus! {

/// What is given of the plays; the rest is drawn.
#[derive(Debug)]
pub struct SpecificPlay {
    /// The names and the bits of the mods.
    pub mods: Option<(String, u32)>,
    pub combo: Option<u32>,
    pub misses: Option<u32>,
    /// The accuracy in percent.
    pub accuracy: Option<Double>,
}

impl Default for SpecificPlay {
    fn default() -> (r: Self)
        ensures
            r == (SpecificPlay { mods: None, combo: None, misses: None, accuracy: None }),
    {
        SpecificPlay { mods: None, combo: None, misses: None, accuracy: None }
    }
}

impl SpecificPlay {
    /// Whether nothing is given.
    pub fn is_empty(&self) -> (r: bool)
        ensures
            r == (self.mods is None && self.combo is None && self.misses is None
                && self.accuracy is None),
    {
        self.mods.is_none() && self.combo.is_none() && self.misses.is_none()
            && self.accuracy.is_none()
    }
}

/// The misses of a play: up to one in fifteen of the combo.
pub open spec fn drawn_misses(x: u64, given: Option<u32>, max_combo: u32) -> (u32, u64) {
    match given {
        Some(misses) => (misses, x),
        None => drawn(
            x,
            0,
            (if max_combo / 15 > 1 {
                max_combo / 15 + 1
            } else {
                2
            }) as u32,
        ),
    }
}

/// The combo of a play: all of it without misses, else at least half.
pub open spec fn drawn_combo(x: u64, given: Option<u32>, misses: u32, max_combo: u32) -> (
    u32,
    u64,
) {
    match given {
        Some(combo) => (combo, x),
        None => if misses == 0 {
            (max_combo, x)
        } else {
            drawn(
                x,
                if max_combo / 2 > 1 {
                    max_combo / 2
                } else {
                    1
                },
                (max_combo + 1) as u32,
            )
        },
    }
}

/// The accuracy of a play in percent: from 90 on in hundredths.
pub open spec fn drawn_accuracy(x: u64, given: Option<Value>) -> (Value, u64) {
    match given {
        Some(accuracy) => (accuracy, x),
        None => {
            let (hundredths, next) = drawn(x, 0, 1001);
            (exactly(90) + exactly(hundredths as nat) / exactly(100), next)
        },
    }
}

/// A play.
#[derive(Clone, Copy, Debug)]
pub struct Play {
    pub combo: u32,
    pub misses: u32,
    /// The accuracy in percent.
    pub accuracy: Double,
}

impl Play {
    /// Draws what is not given of a play on a map with some combo: first the
    /// misses, next the combo, last the accuracy.
    pub fn draw(rng: &mut SimpleRng, explicit: &SpecificPlay, max_combo: u32) -> (r: Play)
        requires
            explicit.combo is None && explicit.misses != Some(0u32) ==> max_combo < u32::MAX,
        ensures
            ({
                let (misses, a) = drawn_misses(old(rng).0, explicit.misses, max_combo);
                let (combo, b) = drawn_combo(a, explicit.combo, misses, max_combo);
                let (accuracy, c) = drawn_accuracy(b, optional(explicit.accuracy));
                &&& r.misses == misses
                &&& r.combo == combo
                &&& r.accuracy@ == accuracy
                &&& final(rng).0 == c
            }),
    {
        let misses: u32 = match explicit.misses {
            Some(misses) => misses,
            None => {
                let upper: u32 = if max_combo / 15 > 1 {
                    max_combo / 15 + 1
                } else {
                    2
                };
                rng.gen_range(0, upper)
            },
        };
        let combo: u32 = match explicit.combo {
            Some(combo) => combo,
            None => {
                if misses == 0 {
                    max_combo
                } else {
                    let lower: u32 = if max_combo / 2 > 1 {
                        max_combo / 2
                    } else {
                        1
                    };
                    rng.gen_range(lower, max_combo + 1)
                }
            },
        };
        let accuracy: Double = match explicit.accuracy {
            Some(accuracy) => accuracy,
            None => {
                let hundredths: u32 = rng.gen_range(0, 1001);
                whole(90) + whole(hundredths as u64) / whole(100)
            },
        };
        Play { combo, misses, accuracy }
    }
}

/// A play that is drawn fits its map: no more misses than one in fifteen of the
/// combo, but perhaps one; a full combo where there is no miss; and elsewhere at
/// least half of the full combo, and no more than all of it.
pub proof fn law_drawn_plays_fit(x: u64, y: u64, max_combo: u32)
    requires
        0 < max_combo < u32::MAX,
    ensures
        ({
            let misses = drawn_misses(x, None, max_combo).0;
            let combo = drawn_combo(y, None, misses, max_combo).0;
            &&& misses <= 1 || misses * 15 <= max_combo
            &&& max_combo / 2 <= combo <= max_combo
            &&& misses == 0 ==> combo == max_combo
        }),
{
}

} // verus!
