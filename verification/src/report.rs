//! One full run: from the lap store and the outcomes of the two fits to the figures that
//! are reported.

use crate::config::SimulationConfig;
use crate::data::{
    all_laps_of, all_stints, calculate_average_stint_lengths, evaluate_model_accuracy,
    mean_abs_error, DataProcessor,
};
use crate::mean::Mean;
use crate::model::{model_state_of, training_rows_of, Coefficients, DegradationModel, ModelState};
use crate::stint::average_length;
use crate::strategy::{is_simulation_of, StrategyOutcome, StrategySimulator};
use vstd::prelude::*;

verus! {

/// Why a run gives no report.
#[derive(Clone, Copy, Debug, PartialEq, Eq, Structural)]
pub enum AnalysisError {
    /// The store holds no driver.
    NoData,
    /// The store holds more laps than the settings allow.
    TooManyLaps,
    /// Neither compound has a model.
    NoModel,
}

/// The figures of one run.
#[derive(Debug, Clone)]
pub struct Analysis {
    pub model: DegradationModel,
    /// Average stint length on the medium compound.
    pub average_medium: Mean,
    /// Average stint length on the hard compound.
    pub average_hard: Mean,
    /// Mean absolute error of the medium model, in millionths of a second.
    pub medium_error: Mean,
    /// Mean absolute error of the hard model, in millionths of a second.
    pub hard_error: Mean,
    /// The accepted strategies with their predicted time loss.
    pub outcomes: Vec<StrategyOutcome>,
}

impl AnalysisError {
    /// The message shown for this error.
    pub open spec fn message_spec(self) -> Seq<char> {
        match self {
            AnalysisError::NoData => "No data found."@,
            AnalysisError::TooManyLaps => "Too many laps."@,
            AnalysisError::NoModel => "Failed to build any models."@,
        }
    }

    pub fn message(self) -> (text: &'static str)
        ensures
            text@ == self.message_spec(),
    {
        match self {
            AnalysisError::NoData => "No data found.",
            AnalysisError::TooManyLaps => "Too many laps.",
            AnalysisError::NoModel => "Failed to build any models.",
        }
    }
}

/// The models that a store and the outcomes of the two fits give.
pub open spec fn models_of(
    store: DataProcessor,
    hard_fit: Option<Coefficients>,
    medium_fit: Option<Coefficients>,
    config: SimulationConfig,
) -> DegradationModel {
    let laps = all_laps_of(store.driver_data@);
    DegradationModel {
        hard_model: model_state_of(
            training_rows_of(laps, "HARD"@).len() as int,
            config.fit_threshold_spec(),
            hard_fit,
        ),
        medium_model: model_state_of(
            training_rows_of(laps, "MEDIUM"@).len() as int,
            config.fit_threshold_spec(),
            medium_fit,
        ),
    }
}

/// `analysis` holds the figures of a run on `store` with the model `model`.
pub open spec fn reports(
    analysis: Analysis,
    store: DataProcessor,
    model: DegradationModel,
    config: SimulationConfig,
) -> bool {
    let laps = all_laps_of(store.driver_data@);
    let stints = all_stints(store.driver_data@);
    &&& analysis.model == model
    &&& analysis.average_medium == average_length(stints, "MEDIUM"@, config.default_medium_stint)
    &&& analysis.average_hard == average_length(stints, "HARD"@, config.default_hard_stint)
    &&& analysis.medium_error == mean_abs_error(model, laps, "MEDIUM"@)
    &&& analysis.hard_error == mean_abs_error(model, laps, "HARD"@)
    &&& is_simulation_of(
        analysis.outcomes@,
        model,
        analysis.average_medium.rounded_laps(),
        analysis.average_hard.rounded_laps(),
        config,
    )
}

/// Runs the analysis on a lap store. `hard_fit` and `medium_fit` hold the coefficients
/// that the regression gave for the training rows of each compound, or nothing where
/// there was no fit.
///
/// The run fails on a store without drivers, on one with more laps than the lap limit of
/// `config`, and where neither compound gets a model, in that order; otherwise it reports.
pub fn analyse(
    store: &DataProcessor,
    hard_fit: Option<Coefficients>,
    medium_fit: Option<Coefficients>,
    config: &SimulationConfig,
) -> (result: Result<Analysis, AnalysisError>)
    ensures
        match result {
            Err(AnalysisError::NoData) => store.driver_data.len() == 0,
            Err(AnalysisError::TooManyLaps) => store.driver_data.len() > 0 && all_laps_of(
                store.driver_data@,
            ).len() > config.lap_limit_spec(),
            Err(AnalysisError::NoModel) => {
                let model = models_of(*store, hard_fit, medium_fit, *config);
                &&& store.driver_data.len() > 0
                &&& all_laps_of(store.driver_data@).len() <= config.lap_limit_spec()
                &&& model.hard_model == ModelState::Unavailable
                &&& model.medium_model == ModelState::Unavailable
            },
            Ok(analysis) => {
                let model = models_of(*store, hard_fit, medium_fit, *config);
                &&& store.driver_data.len() > 0
                &&& all_laps_of(store.driver_data@).len() <= config.lap_limit_spec()
                &&& !(model.hard_model == ModelState::Unavailable && model.medium_model
                    == ModelState::Unavailable)
                &&& reports(analysis, *store, model, *config)
            },
        },
{
    if store.driver_data.len() == 0 {
        return Err(AnalysisError::NoData);
    }
    let laps = store.all_laps();
    if laps.len() > config.effective_lap_limit() {
        return Err(AnalysisError::TooManyLaps);
    }
    let model = DegradationModel::new(&laps, hard_fit, medium_fit, config);
    let no_hard = match model.hard_model {
        ModelState::Unavailable => true,
        ModelState::Fitted(_) => false,
    };
    let no_medium = match model.medium_model {
        ModelState::Unavailable => true,
        ModelState::Fitted(_) => false,
    };
    if no_hard && no_medium {
        return Err(AnalysisError::NoModel);
    }
    let averages = calculate_average_stint_lengths(&store.driver_data, config);
    let errors = evaluate_model_accuracy(&model, &laps);
    let outcomes = StrategySimulator::simulate(&model, &averages.0, &averages.1, config);
    Ok(
        Analysis {
            model,
            average_medium: averages.0,
            average_hard: averages.1,
            medium_error: errors.0,
            hard_error: errors.1,
            outcomes,
        },
    )
}

} // verus!
