//! Hit objects with their relation to the objects before them.
use vstd::prelude::*;

use crate::double::Double;

verus! {

/// A hit object in a position to be rated.
#[derive(Clone, Copy, Debug)]
pub struct OsuDifficultyObject {
    /// The object's place among the difficulty objects.
    pub idx: usize,
    /// The start in milliseconds at the played rate.
    pub start_time: Double,
    /// The start in milliseconds of the map.
    pub base_start_time: Double,
    /// The time since the object before.
    pub delta_time: Double,
    /// The time since the object before, held to what can be rated.
    pub adjusted_delta_time: Double,
    /// The factor for small circles.
    pub small_circle_bonus: Double,
    /// The radius of the circle.
    pub circle_radius: Double,
    /// The distance that the slider travels.
    pub travel_dist: Double,
    /// The time that the slider travels.
    pub travel_time: Double,
    /// The distance from the end of the object before.
    pub lazy_jump_dist: Double,
    /// The least distance that the cursor has to cover.
    pub min_jump_dist: Double,
    /// The time that it has for that.
    pub min_jump_time: Double,
    /// The angle at the object before.
    pub angle: Option<Double>,
    /// The stacked position.
    pub pos_x: Double,
    /// The stacked position.
    pub pos_y: Double,
    pub is_slider: bool,
    pub is_spinner: bool,
}

/// The radius that distances are scaled to.
pub const NORMALIZED_RADIUS: u64 = 50;

/// The diameter that distances are scaled to.
pub const NORMALIZED_DIAMETER: u64 = 100;

/// The object `back + 1` places before `curr`.
pub open spec fn object_before(
    curr: OsuDifficultyObject,
    back: nat,
    objects: Seq<OsuDifficultyObject>,
) -> Option<OsuDifficultyObject> {
    if curr.idx >= back + 1 && curr.idx - (back + 1) < objects.len() {
        Some(objects[curr.idx - (back + 1)])
    } else {
        None
    }
}

/// `curr` and the up to `window` objects before it, the nearest first, up to the
/// first that is missing.
pub open spec fn trail_of(
    curr: OsuDifficultyObject,
    objects: Seq<OsuDifficultyObject>,
    window: nat,
) -> Seq<OsuDifficultyObject>
    decreases window,
{
    if window == 0 {
        seq![curr]
    } else {
        let nearer = trail_of(curr, objects, (window - 1) as nat);
        match object_before(curr, (window - 1) as nat, objects) {
            Some(object) => if nearer.len() == window {
                nearer.push(object)
            } else {
                nearer
            },
            None => nearer,
        }
    }
}

impl OsuDifficultyObject {
    /// The object `back + 1` places before this one.
    pub fn previous(&self, back: usize, objects: &[OsuDifficultyObject]) -> (r: Option<
        OsuDifficultyObject,
    >)
        ensures
            r == object_before(*self, back as nat, objects@),
    {
        if self.idx > back && self.idx - 1 - back < objects.len() {
            Some(objects[self.idx - 1 - back])
        } else {
            None
        }
    }

    /// This object and the up to `window` objects before it, the nearest first.
    pub fn trail(&self, objects: &[OsuDifficultyObject], window: usize) -> (r: Vec<
        OsuDifficultyObject,
    >)
        ensures
            r@ == trail_of(*self, objects@, window as nat),
            1 <= r@.len() <= window + 1,
    {
        let mut out: Vec<OsuDifficultyObject> = Vec::new();
        out.push(*self);
        let mut back: usize = 0;
        let mut open: bool = true;
        while back < window
            invariant
                back <= window,
                out@ == trail_of(*self, objects@, back as nat),
                1 <= out@.len() <= back + 1,
                open == (out@.len() == back + 1),
            decreases window - back,
        {
            match self.previous(back, objects) {
                Some(object) => {
                    if open {
                        out.push(object);
                    }
                },
                None => {
                    open = false;
                },
            }
            back = back + 1;
        }
        out
    }
}

} // verus!
