//! The constants of one simulation run, gathered in one place.

use crate::mean::Mean;
use vstd::prelude::*;

verus! {

/// Fewest training laps with which a model is ever fitted: one more than the regression
/// has unknowns.
pub const MIN_FIT_SAMPLES: usize = 5;

/// Most laps that a run can take on: up to this number the prediction errors of all laps
/// add up within 128 bits, whatever the model.
pub const MAX_REPLAYED_LAPS: usize = 0x7fff_ffff;

/// How the simulated strategies are put in order.
#[derive(Clone, Copy, Debug, PartialEq, Eq, Structural)]
pub enum OutputOrder {
    /// In the order of the catalog.
    AsGenerated,
    /// By predicted time loss, the smallest first; equal losses stay in catalog order.
    ByScore,
}

/// Settings of a simulation. Times and temperatures are in millionths of a second and of
/// a degree.
#[derive(Clone, Copy, Debug)]
pub struct SimulationConfig {
    /// Race distance in laps.
    pub total_laps: u32,
    /// Time lost by one pit stop.
    pub pit_loss_micros: u64,
    /// Track temperature assumed for every simulated lap.
    pub track_temp_micros: i64,
    /// Average medium stint to assume when the data holds no medium stint.
    pub default_medium_stint: Mean,
    /// Average hard stint to assume when the data holds no hard stint.
    pub default_hard_stint: Mean,
    /// Fewest training laps for a compound to get a model; values below
    /// `MIN_FIT_SAMPLES` count as `MIN_FIT_SAMPLES`.
    pub min_fit_samples: usize,
    /// Most laps that a run takes on; values above `MAX_REPLAYED_LAPS` count as
    /// `MAX_REPLAYED_LAPS`.
    pub lap_limit: usize,
    pub order: OutputOrder,
}

/// The settings of the reference race: 56 laps, 21 s per stop, 32 degrees, stints of 14
/// (medium) and 42 (hard) laps, 5 training laps, as many laps as a run can take on,
/// catalog order.
pub open spec fn reference_config() -> SimulationConfig {
    SimulationConfig {
        total_laps: 56,
        pit_loss_micros: 21_000_000,
        track_temp_micros: 32_000_000,
        default_medium_stint: Mean { total: 14, count: 1 },
        default_hard_stint: Mean { total: 42, count: 1 },
        min_fit_samples: 5,
        lap_limit: MAX_REPLAYED_LAPS,
        order: OutputOrder::AsGenerated,
    }
}

impl SimulationConfig {
    /// The lap limit in force: `lap_limit`, but never above `MAX_REPLAYED_LAPS`.
    pub open spec fn lap_limit_spec(&self) -> int {
        if self.lap_limit > MAX_REPLAYED_LAPS {
            MAX_REPLAYED_LAPS as int
        } else {
            self.lap_limit as int
        }
    }

    pub fn effective_lap_limit(&self) -> (limit: usize)
        ensures
            limit == self.lap_limit_spec(),
            limit <= MAX_REPLAYED_LAPS,
    {
        if self.lap_limit > MAX_REPLAYED_LAPS {
            MAX_REPLAYED_LAPS
        } else {
            self.lap_limit
        }
    }

    /// The sample threshold in force: `min_fit_samples`, but never below
    /// `MIN_FIT_SAMPLES`.
    pub open spec fn fit_threshold_spec(&self) -> int {
        if self.min_fit_samples < MIN_FIT_SAMPLES {
            MIN_FIT_SAMPLES as int
        } else {
            self.min_fit_samples as int
        }
    }

    pub fn fit_threshold(&self) -> (t: usize)
        ensures
            t == self.fit_threshold_spec(),
            t >= MIN_FIT_SAMPLES,
    {
        if self.min_fit_samples < MIN_FIT_SAMPLES {
            MIN_FIT_SAMPLES
        } else {
            self.min_fit_samples
        }
    }
}

impl Default for SimulationConfig {
    fn default() -> (c: Self)
        ensures
            c == reference_config(),
    {
        SimulationConfig {
            total_laps: 56,
            pit_loss_micros: 21_000_000,
            track_temp_micros: 32_000_000,
            default_medium_stint: Mean { total: 14, count: 1 },
            default_hard_stint: Mean { total: 42, count: 1 },
            min_fit_samples: 5,
            lap_limit: MAX_REPLAYED_LAPS,
            order: OutputOrder::AsGenerated,
        }
    }
}

} // verus!
