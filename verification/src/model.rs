//! The tyre degradation model: one linear regression per compound over tyre age, track
//! temperature and tyre age squared, with predictions floored at zero.
//!
//! Coefficients are held in billionths, a thousand times finer than the times they
//! predict, so that their rounding does not show in a prediction.

use crate::config::SimulationConfig;
use crate::data::ProcessedLapData;
use crate::sequence::lemma_filter_take_step;
use crate::text::{to_uppercase, uppercase};
use vstd::prelude::*;
use vstd::string::*;

verus! {

/// Largest magnitude of a coefficient, in billionths of its unit: 2^40, about 1099.5.
pub const COEFFICIENT_LIMIT: i64 = 0x100_0000_0000;

/// Coefficients of one fitted regression, in billionths: of a second, of a second per
/// lap of tyre age, of a second per degree, and of a second per lap squared. None lies
/// further from zero than `COEFFICIENT_LIMIT`.
#[derive(Clone, Copy, Debug, PartialEq, Eq, Structural)]
pub struct Coefficients {
    pub(crate) intercept: i64,
    pub(crate) per_lap: i64,
    pub(crate) per_degree: i64,
    pub(crate) per_lap_squared: i64,
}

/// The four coefficients as numbers.
pub struct CoefficientsView {
    pub intercept: int,
    pub per_lap: int,
    pub per_degree: int,
    pub per_lap_squared: int,
}

/// `c` is a coefficient that `Coefficients` can hold.
pub open spec fn coefficient_fits(c: int) -> bool {
    -COEFFICIENT_LIMIT <= c <= COEFFICIENT_LIMIT
}

impl View for Coefficients {
    type V = CoefficientsView;

    closed spec fn view(&self) -> CoefficientsView {
        CoefficientsView {
            intercept: self.intercept as int,
            per_lap: self.per_lap as int,
            per_degree: self.per_degree as int,
            per_lap_squared: self.per_lap_squared as int,
        }
    }
}

/// Whether a compound has a model.
#[derive(Clone, Copy, Debug, PartialEq, Eq, Structural)]
pub enum ModelState {
    Fitted(Coefficients),
    /// Too few training laps, or the fit failed.
    Unavailable,
}

/// One row of training data: the three features and the target.
#[derive(Clone, Copy, Debug, PartialEq, Eq, Structural)]
pub struct TrainingRow {
    pub tyre_age: u32,
    pub track_temp_micros: i64,
    pub tyre_age_squared: u64,
    pub time_delta_micros: i64,
}

/// The models of the two simulated compounds.
#[derive(Clone, Copy, Debug)]
pub struct DegradationModel {
    pub hard_model: ModelState,
    pub medium_model: ModelState,
}

/// Strict upper bound of every prediction, in millionths of a second.
pub open spec fn prediction_bound() -> int {
    0x1_0000_0000_0000_0000_0000_0000
}

/// `v`, or 0 where `v` is negative.
pub open spec fn floor_at_zero(v: int) -> int {
    if v < 0 {
        0
    } else {
        v
    }
}

proof fn lemma_product_bound(a: int, b: int, limit_a: int, limit_b: int)
    requires
        -limit_a <= a <= limit_a,
        -limit_b <= b <= limit_b,
    ensures
        -(limit_a * limit_b) <= a * b <= limit_a * limit_b,
{
    assert(-(limit_a * limit_b) <= a * b <= limit_a * limit_b) by (nonlinear_arith)
        requires
            -limit_a <= a <= limit_a,
            -limit_b <= b <= limit_b,
    ;
}

impl Coefficients {
    #[verifier::type_invariant]
    closed spec fn within_limit(self) -> bool {
        &&& coefficient_fits(self.intercept as int)
        &&& coefficient_fits(self.per_lap as int)
        &&& coefficient_fits(self.per_degree as int)
        &&& coefficient_fits(self.per_lap_squared as int)
    }

    /// Takes four coefficients in billionths; nothing when one of them lies further from
    /// zero than `COEFFICIENT_LIMIT`.
    pub fn new(intercept: i64, per_lap: i64, per_degree: i64, per_lap_squared: i64) -> (made: Option<
        Self,
    >)
        ensures
            made is Some <==> coefficient_fits(intercept as int) && coefficient_fits(per_lap as int)
                && coefficient_fits(per_degree as int) && coefficient_fits(
                per_lap_squared as int,
            ),
            made matches Some(c) ==> c@ == (CoefficientsView {
                intercept: intercept as int,
                per_lap: per_lap as int,
                per_degree: per_degree as int,
                per_lap_squared: per_lap_squared as int,
            }),
    {
        if fits(intercept) && fits(per_lap) && fits(per_degree) && fits(per_lap_squared) {
            Some(Coefficients { intercept, per_lap, per_degree, per_lap_squared })
        } else {
            None
        }
    }

    /// The constant term, in billionths of a second.
    pub fn intercept_nanos(&self) -> (c: i64)
        ensures
            c == self@.intercept,
            coefficient_fits(c as int),
    {
        proof {
            use_type_invariant(self);
        }
        self.intercept
    }

    /// The coefficient of the tyre age, in billionths of a second per lap.
    pub fn per_lap_nanos(&self) -> (c: i64)
        ensures
            c == self@.per_lap,
            coefficient_fits(c as int),
    {
        proof {
            use_type_invariant(self);
        }
        self.per_lap
    }

    /// The coefficient of the track temperature, in billionths of a second per degree.
    pub fn per_degree_nanos(&self) -> (c: i64)
        ensures
            c == self@.per_degree,
            coefficient_fits(c as int),
    {
        proof {
            use_type_invariant(self);
        }
        self.per_degree
    }

    /// The coefficient of the tyre age squared, in billionths of a second per lap squared.
    pub fn per_lap_squared_nanos(&self) -> (c: i64)
        ensures
            c == self@.per_lap_squared,
            coefficient_fits(c as int),
    {
        proof {
            use_type_invariant(self);
        }
        self.per_lap_squared
    }

    /// The regression at a tyre age and a temperature, in billionths of a second. The
    /// temperature term is rounded down to a whole billionth.
    pub open spec fn evaluate_spec(&self, tyre_age: int, temp_micros: int) -> int {
        self@.intercept + self@.per_lap * tyre_age + (self@.per_degree * temp_micros) / 1_000_000
            + self@.per_lap_squared * (tyre_age * tyre_age)
    }

    /// Evaluates the regression, in billionths of a second; the result may be negative.
    pub fn evaluate(&self, tyre_age: u32, temp_micros: i64) -> (v: i128)
        ensures
            v == self.evaluate_spec(tyre_age as int, temp_micros as int),
            -0x200_0000_0000_0000_0000_0000_0000 < v < 0x200_0000_0000_0000_0000_0000_0000,
    {
        let age: i128 = tyre_age as i128;
        proof {
            use_type_invariant(self);
            lemma_product_bound(self.per_lap as int, age as int, 0x100_0000_0000, 0xffff_ffff);
            lemma_product_bound(age as int, age as int, 0xffff_ffff, 0xffff_ffff);
            lemma_product_bound(
                self.per_lap_squared as int,
                age * age,
                0x100_0000_0000,
                0xffff_fffe_0000_0001,
            );
            lemma_product_bound(
                self.per_degree as int,
                temp_micros as int,
                0x100_0000_0000,
                0x8000_0000_0000_0000,
            );
        }
        let linear: i128 = self.per_lap as i128 * age;
        let square: i128 = self.per_lap_squared as i128 * (age * age);
        let scaled: i128 = self.per_degree as i128 * temp_micros as i128;
        let thermal: i128 = floor_div_million(scaled);
        self.intercept as i128 + linear + thermal + square
    }
}

/// Whether a coefficient lies within the limit.
fn fits(c: i64) -> (ok: bool)
    ensures
        ok == coefficient_fits(c as int),
{
    -COEFFICIENT_LIMIT <= c && c <= COEFFICIENT_LIMIT
}

/// A time in billionths of a second as millionths, rounded to the nearest, a tie going up.
pub open spec fn nanos_to_micros(nanos: int) -> int {
    (nanos + 500) / 1000
}

/// `x / 1_000_000`, rounded down.
fn floor_div_million(x: i128) -> (q: i128)
    requires
        -0x80_0000_0000_0000_0000_0000_0000 <= x <= 0x80_0000_0000_0000_0000_0000_0000,
    ensures
        q == x / 1_000_000,
        -0x80_0000_0000_0000_0000_0000_0000 <= q <= 0x80_0000_0000_0000_0000_0000_0000,
{
    if x >= 0 {
        let q = x / 1_000_000;
        proof {
            vstd::arithmetic::div_mod::lemma_fundamental_div_mod(x as int, 1_000_000);
        }
        q
    } else {
        // for negative x, round towards minus infinity
        let m: i128 = -x;
        let up: i128 = (m + 999_999) / 1_000_000;
        proof {
            let q = up as int;
            let r = (m + 999_999) % 1_000_000;
            vstd::arithmetic::div_mod::lemma_fundamental_div_mod(m + 999_999, 1_000_000);
            // m + 999_999 == 1_000_000 * q + r, so x == 1_000_000 * (-q) + (999_999 - r)
            vstd::arithmetic::div_mod::lemma_fundamental_div_mod_converse(
                x as int,
                1_000_000,
                -q,
                999_999 - r,
            );
        }
        -up
    }
}

/// The laps that train the model of `compound`: on that compound, away from the pits on
/// both sides, with a finite time delta.
pub open spec fn trains(compound: Seq<char>) -> spec_fn(ProcessedLapData) -> bool {
    |lap: ProcessedLapData|
        lap.compound@ == compound && !lap.is_pit_out_lap && !lap.is_pit_in_lap
            && lap.time_delta_micros is Some
}

/// Features and target of one training lap.
pub open spec fn training_row(lap: ProcessedLapData) -> TrainingRow {
    TrainingRow {
        tyre_age: lap.tyre_life,
        track_temp_micros: lap.track_temp_micros,
        tyre_age_squared: (lap.tyre_life * lap.tyre_life) as u64,
        time_delta_micros: lap.time_delta_micros->Some_0,
    }
}

/// The training data of `compound`, one row per training lap, in the order of `laps`.
pub open spec fn training_rows_of(laps: Seq<ProcessedLapData>, compound: Seq<char>) -> Seq<
    TrainingRow,
> {
    laps.filter(trains(compound)).map_values(|lap: ProcessedLapData| training_row(lap))
}

/// What becomes of a compound: a model where there are at least `threshold` training rows
/// and the fit gave coefficients, and none otherwise.
pub open spec fn model_state_of(rows: int, threshold: int, fit: Option<Coefficients>) -> ModelState {
    if rows >= threshold && fit is Some {
        ModelState::Fitted(fit->Some_0)
    } else {
        ModelState::Unavailable
    }
}

impl ModelState {
    /// The prediction of this model in millionths of a second: the regression floored at
    /// zero and rounded to a whole millionth, and zero without a model.
    pub open spec fn predicted(&self, tyre_lap: int, temp_micros: int) -> int {
        match *self {
            ModelState::Fitted(c) => nanos_to_micros(
                floor_at_zero(c.evaluate_spec(tyre_lap, temp_micros)),
            ),
            ModelState::Unavailable => 0,
        }
    }

    /// Predicted time loss of one lap on a tyre of age `tyre_lap`.
    pub fn predict(&self, tyre_lap: u32, temp_micros: i64) -> (p: u128)
        ensures
            p == self.predicted(tyre_lap as int, temp_micros as int),
            p < prediction_bound(),
    {
        match self {
            ModelState::Fitted(c) => {
                let v = c.evaluate(tyre_lap, temp_micros);
                if v < 0 {
                    0
                } else {
                    ((v + 500) / 1000) as u128
                }
            },
            ModelState::Unavailable => 0,
        }
    }
}

impl DegradationModel {
    /// The model that answers for a compound given in upper case: the hard or the medium
    /// one, and none for any other name.
    pub open spec fn model_for_spec(&self, compound: Seq<char>) -> ModelState {
        if compound == "HARD"@ {
            self.hard_model
        } else if compound == "MEDIUM"@ {
            self.medium_model
        } else {
            ModelState::Unavailable
        }
    }

    /// Prediction for a compound given in upper case, in millionths of a second.
    pub open spec fn predicted(&self, tyre_lap: int, temp_micros: int, compound: Seq<char>) -> int {
        self.model_for_spec(compound).predicted(tyre_lap, temp_micros)
    }

    /// Looks up the model of a compound whose name is already in upper case.
    pub fn model_for(&self, compound: &str) -> (state: ModelState)
        ensures
            state == self.model_for_spec(compound@),
    {
        let name = String::from_str(compound);
        if name == String::from_str("HARD") {
            self.hard_model
        } else if name == String::from_str("MEDIUM") {
            self.medium_model
        } else {
            ModelState::Unavailable
        }
    }

    /// Predicted time loss for a compound whose name is already in upper case.
    pub fn predict_for(&self, tyre_lap: u32, temp_micros: i64, compound: &str) -> (p: u128)
        ensures
            p == self.predicted(tyre_lap as int, temp_micros as int, compound@),
            p < prediction_bound(),
    {
        self.model_for(compound).predict(tyre_lap, temp_micros)
    }

    /// Predicted time loss of one lap, in millionths of a second: never negative, and zero
    /// for a compound without a model. The compound's name is taken in any case.
    pub fn predict_degradation(&self, tyre_lap: u32, temp_micros: i64, comp: &str) -> (p: u128)
        ensures
            p == self.predicted(tyre_lap as int, temp_micros as int, uppercase(comp@)),
            p < prediction_bound(),
    {
        let upper = to_uppercase(comp);
        self.predict_for(tyre_lap, temp_micros, upper.as_str())
    }

    /// Gathers the training data of `comp` from `laps`, in their order, for the caller to
    /// fit. `None` when there are fewer rows than the threshold of `config`: such a
    /// compound gets no model.
    pub fn training_rows(laps: &Vec<ProcessedLapData>, comp: &str, config: &SimulationConfig) -> (rows:
        Option<Vec<TrainingRow>>)
        ensures
            match rows {
                Some(r) => r@ == training_rows_of(laps@, comp@) && r.len()
                    >= config.fit_threshold_spec(),
                None => training_rows_of(laps@, comp@).len() < config.fit_threshold_spec(),
            },
    {
        let name = String::from_str(comp);
        let mut rows: Vec<TrainingRow> = Vec::new();
        let n = laps.len();
        let mut i: usize = 0;
        proof {
            reveal(Seq::filter);
            assert(laps@.take(0).filter(trains(comp@)).len() == 0);
        }
        while i < n
            invariant
                n == laps.len(),
                0 <= i <= n,
                name@ == comp@,
                rows@ == training_rows_of(laps@.take(i as int), comp@),
            decreases n - i,
        {
            let lap = &laps[i];
            proof {
                lemma_filter_take_step(laps@, trains(comp@), i as int);
            }
            if lap.compound == name && !lap.is_pit_out_lap && !lap.is_pit_in_lap {
                if let Some(delta) = lap.time_delta_micros {
                    let age = lap.tyre_life as u64;
                    assert(age * age <= 0xffff_ffff * 0xffff_ffff) by (nonlinear_arith)
                        requires
                            age <= 0xffff_ffff,
                    ;
                    rows.push(
                        TrainingRow {
                            tyre_age: lap.tyre_life,
                            track_temp_micros: lap.track_temp_micros,
                            tyre_age_squared: age * age,
                            time_delta_micros: delta,
                        },
                    );
                }
            }
            i += 1;
        }
        assert(laps@.take(n as int) == laps@);
        if rows.len() < config.fit_threshold() {
            None
        } else {
            Some(rows)
        }
    }

    /// Settles the model of one compound from the outcome of its fit: `fit` holds the
    /// coefficients that the regression gave for the rows of `training_rows`, or nothing
    /// where it failed. With fewer training rows than the threshold there is no model,
    /// whatever `fit` holds.
    pub fn build_model(
        laps: &Vec<ProcessedLapData>,
        comp: &str,
        fit: Option<Coefficients>,
        config: &SimulationConfig,
    ) -> (state: ModelState)
        ensures
            state == model_state_of(
                training_rows_of(laps@, comp@).len() as int,
                config.fit_threshold_spec(),
                fit,
            ),
            training_rows_of(laps@, comp@).len() < 5 ==> state == ModelState::Unavailable,
    {
        match Self::training_rows(laps, comp, config) {
            Some(_) => match fit {
                Some(c) => ModelState::Fitted(c),
                None => ModelState::Unavailable,
            },
            None => ModelState::Unavailable,
        }
    }

    /// The models of the hard and the medium compound, from the outcomes of their fits.
    pub fn new(
        laps: &Vec<ProcessedLapData>,
        hard_fit: Option<Coefficients>,
        medium_fit: Option<Coefficients>,
        config: &SimulationConfig,
    ) -> (model: Self)
        ensures
            model.hard_model == model_state_of(
                training_rows_of(laps@, "HARD"@).len() as int,
                config.fit_threshold_spec(),
                hard_fit,
            ),
            model.medium_model == model_state_of(
                training_rows_of(laps@, "MEDIUM"@).len() as int,
                config.fit_threshold_spec(),
                medium_fit,
            ),
            training_rows_of(laps@, "HARD"@).len() < 5 ==> model.hard_model
                == ModelState::Unavailable,
            training_rows_of(laps@, "MEDIUM"@).len() < 5 ==> model.medium_model
                == ModelState::Unavailable,
    {
        DegradationModel {
            hard_model: Self::build_model(laps, "HARD", hard_fit, config),
            medium_model: Self::build_model(laps, "MEDIUM", medium_fit, config),
        }
    }
}

/// A prediction is never negative: not with a model, not without one, not for a compound
/// that has none.
pub proof fn lemma_prediction_never_negative(
    model: DegradationModel,
    tyre_lap: int,
    temp_micros: int,
    compound: Seq<char>,
)
    ensures
        model.predicted(tyre_lap, temp_micros, compound) >= 0,
        compound != "HARD"@ && compound != "MEDIUM"@ ==> model.predicted(
            tyre_lap,
            temp_micros,
            compound,
        ) == 0,
{
}

} // verus!
