//! Questions to the numeric routines that the library does not compute itself:
//! the transcendental functions, single precision geometry, and the curves and
//! ratings of the difficulty engine.
//!
//! A [`Math`] holds one function that answers every [`Query`]. Nothing is
//! claimed of the answers beyond that equal questions get equal answers, so
//! that what is proved holds of every such function.
use vstd::prelude::*;

use crate::bits::law_patterns_are_values;
use crate::double::Double;
use crate::operators::whole;
use crate::order::{lemma_one, proper};
use crate::value::{exactly, Value};

verus! {

/// The mods that a rating depends on.
#[derive(Clone, Copy, Debug, PartialEq, Eq, Structural)]
pub struct GameMods {
    pub nf: bool,
    pub ez: bool,
    pub td: bool,
    pub hd: bool,
    pub rx: bool,
    pub ap: bool,
    pub fl: bool,
    pub so: bool,
    pub bl: bool,
    pub tc: bool,
    pub mr: bool,
}

/// What a rating of one skill is computed from.
pub struct Rating<T> {
    pub mods: GameMods,
    pub n_objects: u32,
    pub ar: T,
    pub od: T,
    pub mechanical_difficulty_rating: T,
    pub slider_factor: T,
    pub difficulty_value: T,
}

/// One question, over numbers of type `T`.
pub enum Query<T> {
    /// `base` to the power of `exponent`.
    Power { base: T, exponent: T },
    /// The exponential function.
    Exp { x: T },
    /// The natural logarithm.
    Ln { x: T },
    /// The decimal logarithm.
    Log10 { x: T },
    /// The cube root.
    Cbrt { x: T },
    /// The error function.
    Erf { x: T },
    /// The inverse of the error function.
    ErfInv { x: T },
    /// The logistic curve.
    Logistic { x: T, midpoint: T, multiplier: T, max: Option<T> },
    /// The smooth step between two edges.
    Smoothstep { x: T, start: T, end: T },
    /// The smoother step between two edges.
    Smootherstep { x: T, start: T, end: T },
    /// How far `x` is from `start` to `end`.
    ReverseLerp { x: T, start: T, end: T },
    /// The number that is `t` of the way from `start` to `end`.
    Lerp { start: T, end: T, t: T },
    /// Whether two numbers count as the same; a positive answer is a yes.
    Same { a: T, b: T },
    /// Whether two numbers count as different; a positive answer is a yes.
    Differs { a: T, b: T },
    /// The tempo of notes that are `ms` apart.
    MillisecondsToBpm { ms: T, delimiter: Option<u32> },
    /// The length of the step between two positions, in single precision.
    Distance { from_x: T, from_y: T, to_x: T, to_y: T },
    /// One minus a distance, in single precision.
    ShortOfOne { distance: T },
    /// The nearest single precision number.
    Single { x: T },
    /// The performance that a strain rating is worth.
    StrainPerformance { rating: T },
    /// The performance that an aim rating is worth.
    AimPerformance { rating: T },
    /// The performance that a speed rating is worth.
    SpeedPerformance { rating: T },
    /// The performance that a flashlight rating is worth.
    FlashlightPerformance { rating: T },
    /// The rating of a difficulty value.
    DifficultyRating { difficulty_value: T },
    /// The aim rating.
    AimRating { of: Rating<T> },
    /// The speed rating.
    SpeedRating { of: Rating<T> },
    /// The flashlight rating.
    FlashlightRating { of: Rating<T> },
    /// The bonus for notes that are hard to see.
    VisibilityBonus { mods: GameMods, ar: T, slider_factor: Option<T> },
}

impl Rating<Double> {
    /// The same over values.
    pub open spec fn values(self) -> Rating<Value> {
        Rating {
            mods: self.mods,
            n_objects: self.n_objects,
            ar: self.ar@,
            od: self.od@,
            mechanical_difficulty_rating: self.mechanical_difficulty_rating@,
            slider_factor: self.slider_factor@,
            difficulty_value: self.difficulty_value@,
        }
    }
}

/// The value of an optional number.
pub open spec fn optional(x: Option<Double>) -> Option<Value> {
    match x {
        Some(x) => Some(x@),
        None => None,
    }
}

impl View for Query<Double> {
    type V = Query<Value>;

    open spec fn view(&self) -> Query<Value> {
        match *self {
            Query::Power { base, exponent } => Query::Power { base: base@, exponent: exponent@ },
            Query::Exp { x } => Query::Exp { x: x@ },
            Query::Ln { x } => Query::Ln { x: x@ },
            Query::Log10 { x } => Query::Log10 { x: x@ },
            Query::Cbrt { x } => Query::Cbrt { x: x@ },
            Query::Erf { x } => Query::Erf { x: x@ },
            Query::ErfInv { x } => Query::ErfInv { x: x@ },
            Query::Logistic { x, midpoint, multiplier, max } => Query::Logistic {
                x: x@,
                midpoint: midpoint@,
                multiplier: multiplier@,
                max: optional(max),
            },
            Query::Smoothstep { x, start, end } => Query::Smoothstep {
                x: x@,
                start: start@,
                end: end@,
            },
            Query::Smootherstep { x, start, end } => Query::Smootherstep {
                x: x@,
                start: start@,
                end: end@,
            },
            Query::ReverseLerp { x, start, end } => Query::ReverseLerp {
                x: x@,
                start: start@,
                end: end@,
            },
            Query::Lerp { start, end, t } => Query::Lerp { start: start@, end: end@, t: t@ },
            Query::Same { a, b } => Query::Same { a: a@, b: b@ },
            Query::Differs { a, b } => Query::Differs { a: a@, b: b@ },
            Query::MillisecondsToBpm { ms, delimiter } => Query::MillisecondsToBpm {
                ms: ms@,
                delimiter,
            },
            Query::Distance { from_x, from_y, to_x, to_y } => Query::Distance {
                from_x: from_x@,
                from_y: from_y@,
                to_x: to_x@,
                to_y: to_y@,
            },
            Query::ShortOfOne { distance } => Query::ShortOfOne { distance: distance@ },
            Query::Single { x } => Query::Single { x: x@ },
            Query::StrainPerformance { rating } => Query::StrainPerformance { rating: rating@ },
            Query::AimPerformance { rating } => Query::AimPerformance { rating: rating@ },
            Query::SpeedPerformance { rating } => Query::SpeedPerformance { rating: rating@ },
            Query::FlashlightPerformance { rating } => Query::FlashlightPerformance {
                rating: rating@,
            },
            Query::DifficultyRating { difficulty_value } => Query::DifficultyRating {
                difficulty_value: difficulty_value@,
            },
            Query::AimRating { of } => Query::AimRating { of: of.values() },
            Query::SpeedRating { of } => Query::SpeedRating { of: of.values() },
            Query::FlashlightRating { of } => Query::FlashlightRating { of: of.values() },
            Query::VisibilityBonus { mods, ar, slider_factor } => Query::VisibilityBonus {
                mods,
                ar: ar@,
                slider_factor: optional(slider_factor),
            },
        }
    }
}

/// The answer to every question.
pub struct Table {
    pub answer: spec_fn(Query<Value>) -> Value,
}

/// Whether `f` answers as `table` does, whatever it is asked.
pub open spec fn answers<F: Fn(Query<Double>) -> Double>(f: F, table: Table) -> bool {
    forall|query: Query<Double>, r: Double|
        #[trigger] call_ensures(f, (query,), r) ==> r@ == (table.answer)(query@)
}

/// A function that answers queries.
pub struct Math<F> {
    pub ask: F,
}

impl<F: Fn(Query<Double>) -> Double> Math<F> {
    /// Whether the function takes every question and gives equal answers to
    /// equal questions.
    pub open spec fn sound(self) -> bool {
        &&& forall|query: Query<Double>| call_requires(self.ask, (query,))
        &&& exists|table: Table| answers(self.ask, table)
    }
}

/// Whether `v` is what `f` may answer to a question.
pub open spec fn told<F: Fn(Query<Double>) -> Double>(f: F, q: Query<Value>, v: Value) -> bool {
    exists|query: Query<Double>, r: Double|
        query@ == q && r@ == v && #[trigger] call_ensures(f, (query,), r)
}

impl<F: Fn(Query<Double>) -> Double> View for Math<F> {
    type V = Table;

    /// What the function answers, and zero to what it is never asked.
    open spec fn view(&self) -> Table {
        Table {
            answer: |q: Query<Value>|
                if exists|v: Value| told(self.ask, q, v) {
                    choose|v: Value| told(self.ask, q, v)
                } else {
                    exactly(0)
                },
        }
    }
}

/// What is true of every answer that a function may give, and of zero, is true of
/// every answer in its table.
pub proof fn law_answers_are_told<F: Fn(Query<Double>) -> Double>(
    math: &Math<F>,
    p: spec_fn(Query<Value>, Value) -> bool,
)
    requires
        forall|query: Query<Double>, r: Double|
            #[trigger] call_ensures(math.ask, (query,), r) ==> p(query@, r@),
        forall|q: Query<Value>| #[trigger] p(q, exactly(0)),
    ensures
        forall|q: Query<Value>| p(q, #[trigger] (math@.answer)(q)),
{
    assert forall|q: Query<Value>| p(q, #[trigger] (math@.answer)(q)) by {
        if exists|v: Value| told(math.ask, q, v) {
            let v = choose|v: Value| told(math.ask, q, v);
            let (query, r) = choose|query: Query<Double>, r: Double|
                query@ == q && r@ == v && #[trigger] call_ensures(math.ask, (query,), r);
            assert(p(query@, r@));
        }
    }
}

/// Every answer in the table of a function is a value that binary64 has.
pub proof fn law_answers_are_values<F: Fn(Query<Double>) -> Double>(math: &Math<F>)
    ensures
        forall|q: Query<Value>| proper(#[trigger] (math@.answer)(q)),
{
    let p = |q: Query<Value>, v: Value| proper(v);
    lemma_one();
    assert forall|query: Query<Double>, r: Double| #[trigger] call_ensures(
        math.ask,
        (query,),
        r,
    ) implies p(query@, r@) by {
        law_patterns_are_values(r);
    }
    law_answers_are_told(math, p);
    assert forall|q: Query<Value>| proper(#[trigger] (math@.answer)(q)) by {
        assert(p(q, (math@.answer)(q)));
    }
}

impl Table {
    /// `base` to the power of `exponent`.
    pub open spec fn power(self, base: Value, exponent: Value) -> Value {
        (self.answer)(Query::Power { base, exponent })
    }

    /// The exponential function.
    pub open spec fn exp(self, x: Value) -> Value {
        (self.answer)(Query::Exp { x })
    }

    /// The natural logarithm.
    pub open spec fn ln(self, x: Value) -> Value {
        (self.answer)(Query::Ln { x })
    }

    /// The decimal logarithm.
    pub open spec fn log10(self, x: Value) -> Value {
        (self.answer)(Query::Log10 { x })
    }

    /// The cube root.
    pub open spec fn cbrt(self, x: Value) -> Value {
        (self.answer)(Query::Cbrt { x })
    }

    /// The error function.
    pub open spec fn erf(self, x: Value) -> Value {
        (self.answer)(Query::Erf { x })
    }

    /// The inverse of the error function.
    pub open spec fn erf_inv(self, x: Value) -> Value {
        (self.answer)(Query::ErfInv { x })
    }

    /// The logistic curve.
    pub open spec fn logistic(
        self,
        x: Value,
        midpoint: Value,
        multiplier: Value,
        max: Option<Value>,
    ) -> Value {
        (self.answer)(Query::Logistic { x, midpoint, multiplier, max })
    }

    /// The smooth step between two edges.
    pub open spec fn smoothstep(self, x: Value, start: Value, end: Value) -> Value {
        (self.answer)(Query::Smoothstep { x, start, end })
    }

    /// The smoother step between two edges.
    pub open spec fn smootherstep(self, x: Value, start: Value, end: Value) -> Value {
        (self.answer)(Query::Smootherstep { x, start, end })
    }

    /// How far `x` is from `start` to `end`.
    pub open spec fn reverse_lerp(self, x: Value, start: Value, end: Value) -> Value {
        (self.answer)(Query::ReverseLerp { x, start, end })
    }

    /// The number that is `t` of the way from `start` to `end`.
    pub open spec fn lerp(self, start: Value, end: Value, t: Value) -> Value {
        (self.answer)(Query::Lerp { start, end, t })
    }

    /// The tempo of notes that are `ms` apart.
    pub open spec fn milliseconds_to_bpm(self, ms: Value, delimiter: Option<u32>) -> Value {
        (self.answer)(Query::MillisecondsToBpm { ms, delimiter })
    }

    /// The length of the step between two positions, in single precision.
    pub open spec fn distance(
        self,
        from_x: Value,
        from_y: Value,
        to_x: Value,
        to_y: Value,
    ) -> Value {
        (self.answer)(Query::Distance { from_x, from_y, to_x, to_y })
    }

    /// One minus a distance, in single precision.
    pub open spec fn short_of_one(self, distance: Value) -> Value {
        (self.answer)(Query::ShortOfOne { distance })
    }

    /// The nearest single precision number.
    pub open spec fn single(self, x: Value) -> Value {
        (self.answer)(Query::Single { x })
    }

    /// The performance that a strain rating is worth.
    pub open spec fn strain_performance(self, rating: Value) -> Value {
        (self.answer)(Query::StrainPerformance { rating })
    }

    /// The performance that an aim rating is worth.
    pub open spec fn aim_performance(self, rating: Value) -> Value {
        (self.answer)(Query::AimPerformance { rating })
    }

    /// The performance that a speed rating is worth.
    pub open spec fn speed_performance(self, rating: Value) -> Value {
        (self.answer)(Query::SpeedPerformance { rating })
    }

    /// The performance that a flashlight rating is worth.
    pub open spec fn flashlight_performance(self, rating: Value) -> Value {
        (self.answer)(Query::FlashlightPerformance { rating })
    }

    /// The rating of a difficulty value.
    pub open spec fn difficulty_rating(self, difficulty_value: Value) -> Value {
        (self.answer)(Query::DifficultyRating { difficulty_value })
    }

    /// The aim rating.
    pub open spec fn aim_rating(self, of: Rating<Value>) -> Value {
        (self.answer)(Query::AimRating { of })
    }

    /// The speed rating.
    pub open spec fn speed_rating(self, of: Rating<Value>) -> Value {
        (self.answer)(Query::SpeedRating { of })
    }

    /// The flashlight rating.
    pub open spec fn flashlight_rating(self, of: Rating<Value>) -> Value {
        (self.answer)(Query::FlashlightRating { of })
    }

    /// The bonus for notes that are hard to see.
    pub open spec fn visibility_bonus(
        self,
        mods: GameMods,
        ar: Value,
        slider_factor: Option<Value>,
    ) -> Value {
        (self.answer)(Query::VisibilityBonus { mods, ar, slider_factor })
    }

    /// Whether two numbers count as the same.
    pub open spec fn same(self, a: Value, b: Value) -> bool {
        exactly(0).below((self.answer)(Query::Same { a, b }))
    }

    /// Whether two numbers count as different.
    pub open spec fn differs(self, a: Value, b: Value) -> bool {
        exactly(0).below((self.answer)(Query::Differs { a, b }))
    }
}

impl<F: Fn(Query<Double>) -> Double> Math<F> {
    /// The answer to a question.
    fn answer(&self, query: Query<Double>) -> (r: Double)
        requires
            self.sound(),
        ensures
            r@ == (self@.answer)(query@),
    {
        let ghost q = query@;
        let r = (self.ask)(query);
        proof {
            let table = choose|table: Table| answers(self.ask, table);
            assert(told(self.ask, q, r@));
            let v = choose|v: Value| told(self.ask, q, v);
            assert(v == (table.answer)(q));
        }
        r
    }

    /// `base` to the power of `exponent`.
    pub fn power(&self, base: Double, exponent: Double) -> (r: Double)
        requires
            self.sound(),
        ensures
            r@ == self@.power(base@, exponent@),
    {
        self.answer(Query::Power { base, exponent })
    }

    /// The exponential function.
    pub fn exp(&self, x: Double) -> (r: Double)
        requires
            self.sound(),
        ensures
            r@ == self@.exp(x@),
    {
        self.answer(Query::Exp { x })
    }

    /// The natural logarithm.
    pub fn ln(&self, x: Double) -> (r: Double)
        requires
            self.sound(),
        ensures
            r@ == self@.ln(x@),
    {
        self.answer(Query::Ln { x })
    }

    /// The decimal logarithm.
    pub fn log10(&self, x: Double) -> (r: Double)
        requires
            self.sound(),
        ensures
            r@ == self@.log10(x@),
    {
        self.answer(Query::Log10 { x })
    }

    /// The cube root.
    pub fn cbrt(&self, x: Double) -> (r: Double)
        requires
            self.sound(),
        ensures
            r@ == self@.cbrt(x@),
    {
        self.answer(Query::Cbrt { x })
    }

    /// The error function.
    pub fn erf(&self, x: Double) -> (r: Double)
        requires
            self.sound(),
        ensures
            r@ == self@.erf(x@),
    {
        self.answer(Query::Erf { x })
    }

    /// The inverse of the error function.
    pub fn erf_inv(&self, x: Double) -> (r: Double)
        requires
            self.sound(),
        ensures
            r@ == self@.erf_inv(x@),
    {
        self.answer(Query::ErfInv { x })
    }

    /// The logistic curve.
    pub fn logistic(
        &self,
        x: Double,
        midpoint: Double,
        multiplier: Double,
        max: Option<Double>,
    ) -> (r: Double)
        requires
            self.sound(),
        ensures
            r@ == self@.logistic(x@, midpoint@, multiplier@, optional(max)),
    {
        self.answer(Query::Logistic { x, midpoint, multiplier, max })
    }

    /// The smooth step between two edges.
    pub fn smoothstep(&self, x: Double, start: Double, end: Double) -> (r: Double)
        requires
            self.sound(),
        ensures
            r@ == self@.smoothstep(x@, start@, end@),
    {
        self.answer(Query::Smoothstep { x, start, end })
    }

    /// The smoother step between two edges.
    pub fn smootherstep(&self, x: Double, start: Double, end: Double) -> (r: Double)
        requires
            self.sound(),
        ensures
            r@ == self@.smootherstep(x@, start@, end@),
    {
        self.answer(Query::Smootherstep { x, start, end })
    }

    /// How far `x` is from `start` to `end`.
    pub fn reverse_lerp(&self, x: Double, start: Double, end: Double) -> (r: Double)
        requires
            self.sound(),
        ensures
            r@ == self@.reverse_lerp(x@, start@, end@),
    {
        self.answer(Query::ReverseLerp { x, start, end })
    }

    /// The number that is `t` of the way from `start` to `end`.
    pub fn lerp(&self, start: Double, end: Double, t: Double) -> (r: Double)
        requires
            self.sound(),
        ensures
            r@ == self@.lerp(start@, end@, t@),
    {
        self.answer(Query::Lerp { start, end, t })
    }

    /// The tempo of notes that are `ms` apart.
    pub fn milliseconds_to_bpm(&self, ms: Double, delimiter: Option<u32>) -> (r: Double)
        requires
            self.sound(),
        ensures
            r@ == self@.milliseconds_to_bpm(ms@, delimiter),
    {
        self.answer(Query::MillisecondsToBpm { ms, delimiter })
    }

    /// The length of the step between two positions, in single precision.
    pub fn distance(
        &self,
        from_x: Double,
        from_y: Double,
        to_x: Double,
        to_y: Double,
    ) -> (r: Double)
        requires
            self.sound(),
        ensures
            r@ == self@.distance(from_x@, from_y@, to_x@, to_y@),
    {
        self.answer(Query::Distance { from_x, from_y, to_x, to_y })
    }

    /// One minus a distance, in single precision.
    pub fn short_of_one(&self, distance: Double) -> (r: Double)
        requires
            self.sound(),
        ensures
            r@ == self@.short_of_one(distance@),
    {
        self.answer(Query::ShortOfOne { distance })
    }

    /// The nearest single precision number.
    pub fn single(&self, x: Double) -> (r: Double)
        requires
            self.sound(),
        ensures
            r@ == self@.single(x@),
    {
        self.answer(Query::Single { x })
    }

    /// The performance that a strain rating is worth.
    pub fn strain_performance(&self, rating: Double) -> (r: Double)
        requires
            self.sound(),
        ensures
            r@ == self@.strain_performance(rating@),
    {
        self.answer(Query::StrainPerformance { rating })
    }

    /// The performance that an aim rating is worth.
    pub fn aim_performance(&self, rating: Double) -> (r: Double)
        requires
            self.sound(),
        ensures
            r@ == self@.aim_performance(rating@),
    {
        self.answer(Query::AimPerformance { rating })
    }

    /// The performance that a speed rating is worth.
    pub fn speed_performance(&self, rating: Double) -> (r: Double)
        requires
            self.sound(),
        ensures
            r@ == self@.speed_performance(rating@),
    {
        self.answer(Query::SpeedPerformance { rating })
    }

    /// The performance that a flashlight rating is worth.
    pub fn flashlight_performance(&self, rating: Double) -> (r: Double)
        requires
            self.sound(),
        ensures
            r@ == self@.flashlight_performance(rating@),
    {
        self.answer(Query::FlashlightPerformance { rating })
    }

    /// The rating of a difficulty value.
    pub fn difficulty_rating(&self, difficulty_value: Double) -> (r: Double)
        requires
            self.sound(),
        ensures
            r@ == self@.difficulty_rating(difficulty_value@),
    {
        self.answer(Query::DifficultyRating { difficulty_value })
    }

    /// The aim rating.
    pub fn aim_rating(&self, of: Rating<Double>) -> (r: Double)
        requires
            self.sound(),
        ensures
            r@ == self@.aim_rating(of.values()),
    {
        self.answer(Query::AimRating { of })
    }

    /// The speed rating.
    pub fn speed_rating(&self, of: Rating<Double>) -> (r: Double)
        requires
            self.sound(),
        ensures
            r@ == self@.speed_rating(of.values()),
    {
        self.answer(Query::SpeedRating { of })
    }

    /// The flashlight rating.
    pub fn flashlight_rating(&self, of: Rating<Double>) -> (r: Double)
        requires
            self.sound(),
        ensures
            r@ == self@.flashlight_rating(of.values()),
    {
        self.answer(Query::FlashlightRating { of })
    }

    /// The bonus for notes that are hard to see.
    pub fn visibility_bonus(
        &self,
        mods: GameMods,
        ar: Double,
        slider_factor: Option<Double>,
    ) -> (r: Double)
        requires
            self.sound(),
        ensures
            r@ == self@.visibility_bonus(mods, ar@, optional(slider_factor)),
    {
        self.answer(Query::VisibilityBonus { mods, ar, slider_factor })
    }

    /// Whether two numbers count as the same.
    pub fn same(&self, a: Double, b: Double) -> (r: bool)
        requires
            self.sound(),
        ensures
            r == self@.same(a@, b@),
    {
        whole(0).below(self.answer(Query::Same { a, b }))
    }

    /// Whether two numbers count as different.
    pub fn differs(&self, a: Double, b: Double) -> (r: bool)
        requires
            self.sound(),
        ensures
            r == self@.differs(a@, b@),
    {
        whole(0).below(self.answer(Query::Differs { a, b }))
    }
}

} // verus!
