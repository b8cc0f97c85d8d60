//! What holds of the stars of a map, whatever the map and the mods.
use vstd::prelude::*;

use crate::order::{
    finite, lemma_greater, lemma_inside, lemma_minus, lemma_near_place, lemma_one, lemma_order,
    lemma_over, lemma_over_large, lemma_settle_fits, lemma_settle_order, lemma_sum, lemma_sum_order,
    lemma_whole_place, number, place,
};
use crate::osu::attributes::OsuDifficultyAttributes;
use crate::osu::difficulty::{
    calculate_mechanical_difficulty_rating_of, calculate_star_rating_of, evaluated,
    skilled_objects_of, slider_factor_of, top_weighted_slider_factor_of, OsuSkills, SkillCounts,
};
use crate::powers::{grows, roots_grow};
use crate::query::{GameMods, Rating, Table};
use crate::signs::{lemma_commutes, lemma_factor_order};
use crate::value::{exactly, near, one_units, Value};

verus! {

/// What one skill is worth among others that are worth nothing.
pub open spec fn lone_of(t: Table, performance: Value) -> Value {
    t.power(t.power(performance, near(11, 10)), exactly(1) / near(11, 10))
}

/// What the stars of a performance are the cube root of.
pub open spec fn under_root_of(t: Table, performance: Value) -> Value {
    exactly(100_000) / t.power(exactly(2), exactly(1) / near(11, 10)) * performance
}

/// Whether the constants that stars are made of are positive numbers.
pub open spec fn makes_stars(t: Table) -> bool {
    let inner = exactly(100_000) / t.power(exactly(2), exactly(1) / near(11, 10));
    let outer = t.cbrt(near(92, 100)) * near(265, 10_000);
    finite(inner) && 0 < place(inner) && finite(outer) && 0 < place(outer)
}

/// Stars do not fall where the performance rises, and are positive where it is not
/// tiny.
pub proof fn law_stars_do_not_fall(t: Table, less: Value, more: Value)
    requires
        makes_stars(t),
        number(less),
        number(more),
        exactly(0).at_most(less),
        less.at_most(more),
        roots_grow(t, under_root_of(t, less), under_root_of(t, more)),
    ensures
        calculate_star_rating_of(t, less).at_most(calculate_star_rating_of(t, more)),
        near(1, 100_000).below(more) ==> exactly(0).below(calculate_star_rating_of(t, more)),
{
    lemma_one();
    lemma_near_place(1, 100_000);
    lemma_whole_place(4);
    lemma_order(exactly(0), less);
    lemma_order(less, more);
    lemma_order(less, near(1, 100_000));
    lemma_order(more, near(1, 100_000));
    lemma_order(near(1, 100_000), more);
    lemma_order(exactly(0), exactly(0));
    let inner = exactly(100_000) / t.power(exactly(2), exactly(1) / near(11, 10));
    let outer = t.cbrt(near(92, 100)) * near(265, 10_000);
    lemma_factor_order(inner, less, more);
    let (a, b) = (t.cbrt(inner * less), t.cbrt(inner * more));
    lemma_sum(a, exactly(4));
    lemma_sum(b, exactly(4));
    lemma_sum_order(a, exactly(4), b, exactly(4));
    lemma_factor_order(outer, a + exactly(4), b + exactly(4));
    let (r, s) = (outer * (a + exactly(4)), outer * (b + exactly(4)));
    lemma_order(r, s);
    lemma_order(exactly(0), s);
}

/// The stars of a map are decided by what its skills are worth: two maps whose skills
/// are worth the same have the same stars, whatever else they differ in and whatever
/// the mods, and aim and speed count alike.
pub proof fn law_stars_come_from_the_skills(
    t: Table,
    a: (OsuDifficultyAttributes, OsuDifficultyAttributes),
    b: (OsuDifficultyAttributes, OsuDifficultyAttributes),
    mods: (GameMods, GameMods),
    skills: (OsuSkills, OsuSkills),
    counts: (SkillCounts, SkillCounts),
)
    requires
        evaluated(t, a.0, a.1, mods.0, skills.0, counts.0),
        evaluated(t, b.0, b.1, mods.1, skills.1, counts.1),
        t.flashlight_performance(a.1.flashlight@) == t.flashlight_performance(b.1.flashlight@),
        ({
            let (aim, speed) = (t.aim_performance(a.1.aim@), t.speed_performance(a.1.speed@));
            let (other_aim, other_speed) = (
                t.aim_performance(b.1.aim@),
                t.speed_performance(b.1.speed@),
            );
            aim == other_aim && speed == other_speed || aim == other_speed && speed == other_aim
        }),
    ensures
        a.1.stars@ == b.1.stars@,
{
    lemma_commutes(
        t.power(t.aim_performance(a.1.aim@), near(11, 10)),
        t.power(t.speed_performance(a.1.speed@), near(11, 10)),
    );
}

/// What the skills of a map are worth together, each by its power.
spec fn powers_of(t: Table, attrs: OsuDifficultyAttributes) -> (Value, Value, Value) {
    (
        t.power(t.aim_performance(attrs.aim@), near(11, 10)),
        t.power(t.speed_performance(attrs.speed@), near(11, 10)),
        t.power(t.flashlight_performance(attrs.flashlight@), near(11, 10)),
    )
}

/// The stars of a map are at least those that each of its skills has alone, under all
/// mods.
pub proof fn law_every_skill_has_its_stars(
    t: Table,
    before: OsuDifficultyAttributes,
    after: OsuDifficultyAttributes,
    mods: GameMods,
    skills: OsuSkills,
    counts: SkillCounts,
    performance: Value,
)
    requires
        evaluated(t, before, after, mods, skills, counts),
        makes_stars(t),
        performance == t.aim_performance(after.aim@) || performance == t.speed_performance(
            after.speed@,
        ) || performance == t.flashlight_performance(after.flashlight@),
        ({
            let a = t.power(t.aim_performance(after.aim@), near(11, 10));
            let b = t.power(t.speed_performance(after.speed@), near(11, 10));
            let c = t.power(t.flashlight_performance(after.flashlight@), near(11, 10));
            let root = exactly(1) / near(11, 10);
            let one = t.power(performance, near(11, 10));
            &&& number(a) && number(b) && number(c)
            &&& exactly(0).at_most(a) && exactly(0).at_most(b) && exactly(0).at_most(c)
            &&& grows(t, root, one, a + b + c)
            &&& roots_grow(
                t,
                under_root_of(t, lone_of(t, performance)),
                under_root_of(t, t.power(a + b + c, root)),
            )
        }),
    ensures
        calculate_star_rating_of(t, lone_of(t, performance)).at_most(after.stars@),
        near(1, 100_000).below(lone_of(t, performance)) ==> exactly(0).below(after.stars@),
{
    lemma_one();
    let (a, b, c) = powers_of(t, after);
    let root = exactly(1) / near(11, 10);
    lemma_order(exactly(0), a);
    lemma_order(exactly(0), b);
    lemma_order(exactly(0), c);
    lemma_sum(a, b);
    lemma_sum(a + b, c);
    let (less, more) = (lone_of(t, performance), t.power(a + b + c, root));
    lemma_order(exactly(0), less);
    lemma_order(less, more);
    law_stars_do_not_fall(t, less, more);
    lemma_near_place(1, 100_000);
    lemma_order(near(1, 100_000), less);
    lemma_order(near(1, 100_000), more);
}

/// The stars of a map do not fall where its skills are worth more, under all mods.
pub proof fn law_stars_rise_with_the_skills(
    t: Table,
    a: (OsuDifficultyAttributes, OsuDifficultyAttributes),
    b: (OsuDifficultyAttributes, OsuDifficultyAttributes),
    mods: (GameMods, GameMods),
    skills: (OsuSkills, OsuSkills),
    counts: (SkillCounts, SkillCounts),
)
    requires
        evaluated(t, a.0, a.1, mods.0, skills.0, counts.0),
        evaluated(t, b.0, b.1, mods.1, skills.1, counts.1),
        makes_stars(t),
        ({
            let (x, y) = (t.aim_performance(a.1.aim@), t.aim_performance(b.1.aim@));
            number(x) && number(y) && exactly(0).at_most(x) && x.at_most(y) && grows(
                t,
                near(11, 10),
                x,
                y,
            )
        }),
        ({
            let (x, y) = (t.speed_performance(a.1.speed@), t.speed_performance(b.1.speed@));
            number(x) && number(y) && exactly(0).at_most(x) && x.at_most(y) && grows(
                t,
                near(11, 10),
                x,
                y,
            )
        }),
        ({
            let (x, y) = (
                t.flashlight_performance(a.1.flashlight@),
                t.flashlight_performance(b.1.flashlight@),
            );
            number(x) && number(y) && exactly(0).at_most(x) && x.at_most(y) && grows(
                t,
                near(11, 10),
                x,
                y,
            )
        }),
        ({
            let e = near(11, 10);
            let less = t.power(t.aim_performance(a.1.aim@), e) + t.power(
                t.speed_performance(a.1.speed@),
                e,
            ) + t.power(t.flashlight_performance(a.1.flashlight@), e);
            let more = t.power(t.aim_performance(b.1.aim@), e) + t.power(
                t.speed_performance(b.1.speed@),
                e,
            ) + t.power(t.flashlight_performance(b.1.flashlight@), e);
            let root = exactly(1) / e;
            grows(t, root, less, more) && roots_grow(
                t,
                under_root_of(t, t.power(less, root)),
                under_root_of(t, t.power(more, root)),
            )
        }),
    ensures
        a.1.stars@.at_most(b.1.stars@),
{
    lemma_one();
    let (x, y) = (powers_of(t, a.1), powers_of(t, b.1));
    let root = exactly(1) / near(11, 10);
    lemma_order(exactly(0), t.aim_performance(a.1.aim@));
    lemma_order(exactly(0), t.speed_performance(a.1.speed@));
    lemma_order(exactly(0), t.flashlight_performance(a.1.flashlight@));
    lemma_order(t.aim_performance(a.1.aim@), t.aim_performance(b.1.aim@));
    lemma_order(t.speed_performance(a.1.speed@), t.speed_performance(b.1.speed@));
    lemma_order(
        t.flashlight_performance(a.1.flashlight@),
        t.flashlight_performance(b.1.flashlight@),
    );
    lemma_sum(x.0, x.1);
    lemma_sum(y.0, y.1);
    lemma_sum_order(x.0, x.1, y.0, y.1);
    lemma_sum(x.0 + x.1, x.2);
    lemma_sum(y.0 + y.1, y.2);
    lemma_sum_order(x.0 + x.1, x.2, y.0 + y.1, y.2);
    let (less, more) = (t.power(x.0 + x.1 + x.2, root), t.power(y.0 + y.1 + y.2, root));
    lemma_order(exactly(0), less);
    lemma_order(less, more);
    law_stars_do_not_fall(t, less, more);
}

/// The rating of a skill is what its curve says of the difficulty value of that skill
/// under the mods of the play; flashlight has one only under Flashlight.
pub proof fn law_ratings_are_of_their_skills(
    t: Table,
    before: OsuDifficultyAttributes,
    after: OsuDifficultyAttributes,
    mods: GameMods,
    skills: OsuSkills,
    counts: SkillCounts,
)
    requires
        evaluated(t, before, after, mods, skills, counts),
    ensures
        exists|of: Rating<Value>| #[trigger]
            t.aim_rating(of) == after.aim@ && of.mods == mods && of.difficulty_value
                == skills.aim_difficulty_value@ && of.n_objects == before.n_objects && of.ar
                == before.ar@ && of.od == before.od@,
        exists|of: Rating<Value>| #[trigger]
            t.speed_rating(of) == after.speed@ && of.mods == mods && of.difficulty_value
                == skills.speed_difficulty_value@ && of.n_objects == before.n_objects && of.ar
                == before.ar@ && of.od == before.od@,
        mods.fl ==> exists|of: Rating<Value>| #[trigger]
            t.flashlight_rating(of) == after.flashlight@ && of.mods == mods && of.difficulty_value
                == skills.flashlight_difficulty_value@ && of.n_objects == before.n_objects && of.ar
                == before.ar@ && of.od == before.od@,
        !mods.fl ==> after.flashlight@ == exactly(0),
{
}

/// Aim and speed count alike in the mechanical difficulty of a map, where their curves
/// agree on both, and each has at least the stars that it has alone.
pub proof fn law_mechanics_have_the_stars_of_each(t: Table, aim: Value, speed: Value)
    requires
        makes_stars(t),
        ({
            let a = t.power(t.aim_performance(t.difficulty_rating(aim)), near(11, 10));
            let b = t.power(t.speed_performance(t.difficulty_rating(speed)), near(11, 10));
            let root = exactly(1) / near(11, 10);
            &&& number(a) && number(b)
            &&& exactly(0).at_most(a) && exactly(0).at_most(b)
            &&& grows(t, root, a, a + b) && grows(t, root, b, a + b)
            &&& roots_grow(
                t,
                under_root_of(t, t.power(a, root)),
                under_root_of(t, t.power(a + b, root)),
            )
            &&& roots_grow(
                t,
                under_root_of(t, t.power(b, root)),
                under_root_of(t, t.power(a + b, root)),
            )
        }),
    ensures
        calculate_star_rating_of(
            t,
            lone_of(t, t.aim_performance(t.difficulty_rating(aim))),
        ).at_most(calculate_mechanical_difficulty_rating_of(t, aim, speed)),
        calculate_star_rating_of(
            t,
            lone_of(t, t.speed_performance(t.difficulty_rating(speed))),
        ).at_most(calculate_mechanical_difficulty_rating_of(t, aim, speed)),
{
    lemma_one();
    let a = t.power(t.aim_performance(t.difficulty_rating(aim)), near(11, 10));
    let b = t.power(t.speed_performance(t.difficulty_rating(speed)), near(11, 10));
    let root = exactly(1) / near(11, 10);
    lemma_order(exactly(0), a);
    lemma_order(exactly(0), b);
    lemma_sum(a, b);
    let more = t.power(a + b, root);
    lemma_order(exactly(0), t.power(a, root));
    lemma_order(exactly(0), t.power(b, root));
    lemma_order(t.power(a, root), more);
    lemma_order(t.power(b, root), more);
    law_stars_do_not_fall(t, t.power(a, root), more);
    law_stars_do_not_fall(t, t.power(b, root), more);
}

/// The sliders among the hardest notes weigh the more the more they are: nothing where
/// there are none, and as many as they are where there is hardly another note.
pub proof fn law_more_sliders_weigh_more(less: Value, more: Value, strains: Value)
    requires
        finite(less) && finite(more) && finite(strains),
        exactly(0).at_most(less),
        less.at_most(more),
    ensures
        ({
            let (a, b) = (
                top_weighted_slider_factor_of(less, strains),
                top_weighted_slider_factor_of(more, strains),
            );
            &&& exactly(0).at_most(a) && a.at_most(b)
            &&& b.at_most(more)
            &&& less.at_most(exactly(0)) ==> a.at_most(exactly(0))
            &&& (strains - more).at_most(exactly(1)) ==> more.at_most(b)
        }),
{
    lemma_one();
    let u = one_units();
    lemma_order(exactly(0), less);
    lemma_order(less, exactly(0));
    lemma_order(less, more);
    lemma_minus(strains, less);
    lemma_minus(strains, more);
    lemma_settle_order(place(strains) - place(more), 1, place(strains) - place(less), 1);
    lemma_greater(strains - less, exactly(1));
    lemma_greater(strains - more, exactly(1));
    lemma_order(strains - more, exactly(1));
    let (c, d) = ((strains - less).greater(exactly(1)), (strains - more).greater(exactly(1)));
    lemma_over_large(less, c);
    lemma_over_large(more, d);
    let (a, b) = (less / c, more / d);
    lemma_settle_fits(strains);
    lemma_settle_order(place(strains) - place(less), 1, place(strains), 1);
    lemma_inside(strains);
    lemma_inside(exactly(1));
    lemma_inside(c);
    lemma_inside(d);
    lemma_over(less, c);
    lemma_over(more, d);
    let (p, q, x, y) = (place(less), place(more), place(c), place(d));
    assert((p * u) * y <= (q * u) * x) by (nonlinear_arith)
        requires
            0 <= p <= q,
            0 <= y <= x,
            u > 0,
    {
        assert(p * y <= q * x);
        assert((p * u) * y == (p * y) * u);
        assert((q * u) * x == (q * x) * u);
    };
    lemma_settle_order(p * u, x as nat, q * u, y as nat);
    lemma_settle_fits(more);
    if y == u {
        assert((q * u) * 1 == q * u) by (nonlinear_arith);
        lemma_settle_order(q, 1, q * u, u);
    }
    lemma_order(exactly(0), a);
    lemma_order(a, exactly(0));
    lemma_order(a, b);
    lemma_order(b, more);
    lemma_order(more, b);
}

/// What remains of aim without sliders is all of it where they make no difference, and
/// no more than that where they only add.
pub proof fn law_sliders_take_a_share(t: Table, aim: Value, aim_no_sliders: Value)
    requires
        ({
            let (a, b) = (t.difficulty_rating(aim_no_sliders), t.difficulty_rating(aim));
            finite(a) && finite(b) && exactly(0).at_most(a) && a.at_most(b) && exactly(0).below(b)
        }),
    ensures
        ({
            let r = slider_factor_of(t, aim, aim_no_sliders);
            &&& exactly(0).at_most(r) && r.at_most(exactly(1))
            &&& t.difficulty_rating(aim_no_sliders) == t.difficulty_rating(aim) ==> r.equals(
                exactly(1),
            )
            &&& !exactly(0).below(aim) ==> r == exactly(1)
        }),
{
    lemma_one();
    let u = one_units();
    let (a, b) = (t.difficulty_rating(aim_no_sliders), t.difficulty_rating(aim));
    lemma_order(exactly(0), a);
    lemma_order(a, b);
    lemma_order(exactly(0), b);
    lemma_over(a, b);
    lemma_settle_fits(exactly(1));
    let (p, q) = (place(a), place(b));
    assert((p * u) * 1 <= u * q) by (nonlinear_arith)
        requires
            p <= q,
            u > 0,
    ;
    lemma_settle_order(p * u, q as nat, u as int, 1);
    if a == b {
        assert(u * q <= (p * u) * 1) by (nonlinear_arith)
            requires
                p == q,
        ;
        lemma_settle_order(u as int, 1, p * u, q as nat);
    }
    lemma_order(exactly(0), a / b);
    lemma_order(a / b, exactly(1));
    lemma_order(exactly(0), exactly(1));
    lemma_order(exactly(1), exactly(1));
    lemma_inside(exactly(1));
    lemma_inside(a / b);
    reveal(Value::equals);
}

/// The skills take up the objects that were asked for, one less than of the map for the
/// first has none before it, and all of them where all were asked for.
pub proof fn law_skills_take_what_is_asked(n_hit_objects: usize, fewer: usize, more: usize, n: nat)
    requires
        fewer <= more,
    ensures
        skilled_objects_of(n_hit_objects, fewer, n) <= skilled_objects_of(n_hit_objects, more, n),
        skilled_objects_of(n_hit_objects, more, n) <= n,
        n_hit_objects <= more && n + 1 == n_hit_objects ==> skilled_objects_of(
            n_hit_objects,
            more,
            n,
        ) == n,
        0 < fewer <= n_hit_objects && fewer <= n ==> skilled_objects_of(n_hit_objects, fewer, n)
            == fewer - 1,
{
}

} // verus!
