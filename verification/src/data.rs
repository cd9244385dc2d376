//! Lap records, the per-driver lap store, and the figures taken over all its laps.

use crate::config::{SimulationConfig, MAX_REPLAYED_LAPS};
use crate::mean::Mean;
use crate::model::{trains, DegradationModel};
use crate::sequence::lemma_filter_take_step;
use crate::stint::{
    average_length, average_stint_lengths, counted_on, segment_stints, stints_of, Stint,
};
use vstd::prelude::*;
use vstd::string::*;

verus! {

/// One validated lap of one driver.
///
/// Times and temperatures are fixed-point, in millionths of a second and of a degree.
#[derive(Debug, Clone)]
pub struct ProcessedLapData {
    pub driver: String,
    pub lap_number: u32,
    /// Tyre compound, in upper case.
    pub compound: String,
    /// Laps the tyre had done when this lap was driven.
    pub tyre_life: u32,
    pub lap_time_micros: i64,
    pub track_temp_micros: i64,
    /// Lap time less the driver's best lap away from the pits; `None` where no finite
    /// value exists.
    pub time_delta_micros: Option<i64>,
    /// The lap directly after a pit stop.
    pub is_pit_out_lap: bool,
    /// The lap directly before a pit stop.
    pub is_pit_in_lap: bool,
}

/// What a lap record holds, its texts as sequences of characters.
pub struct LapView {
    pub driver: Seq<char>,
    pub lap_number: u32,
    pub compound: Seq<char>,
    pub tyre_life: u32,
    pub lap_time_micros: i64,
    pub track_temp_micros: i64,
    pub time_delta_micros: Option<i64>,
    pub is_pit_out_lap: bool,
    pub is_pit_in_lap: bool,
}

impl View for ProcessedLapData {
    type V = LapView;

    open spec fn view(&self) -> LapView {
        LapView {
            driver: self.driver@,
            lap_number: self.lap_number,
            compound: self.compound@,
            tyre_life: self.tyre_life,
            lap_time_micros: self.lap_time_micros,
            track_temp_micros: self.track_temp_micros,
            time_delta_micros: self.time_delta_micros,
            is_pit_out_lap: self.is_pit_out_lap,
            is_pit_in_lap: self.is_pit_in_lap,
        }
    }
}

/// The views of a run of laps.
pub open spec fn lap_views(laps: Seq<ProcessedLapData>) -> Seq<LapView> {
    laps.map_values(|lap: ProcessedLapData| lap@)
}

/// The lap numbers of `laps` increase strictly from one lap to the next.
pub open spec fn chronological(laps: Seq<ProcessedLapData>) -> bool {
    forall|i: int, j: int|
        0 <= i < j < laps.len() ==> (#[trigger] laps[i]).lap_number < (#[trigger] laps[j]).lap_number
}

/// The laps of one driver, in the order in which they were driven.
#[derive(Debug, Clone)]
pub struct DriverLaps {
    pub driver: String,
    pub laps: Vec<ProcessedLapData>,
}

/// The stints of all drivers, driver after driver.
pub open spec fn all_stints(data: Seq<DriverLaps>) -> Seq<Stint>
    decreases data.len(),
{
    if data.len() == 0 {
        Seq::empty()
    } else {
        all_stints(data.drop_last()) + stints_of(data.last().laps@)
    }
}

/// Mean stint length on the medium and on the hard compound over all drivers, in that
/// order. A compound on which nobody drove a stint gets its default from `config`.
pub fn calculate_average_stint_lengths(data: &Vec<DriverLaps>, config: &SimulationConfig) -> (averages: (
    Mean,
    Mean,
))
    ensures
        averages.0 == average_length(all_stints(data@), "MEDIUM"@, config.default_medium_stint),
        averages.1 == average_length(all_stints(data@), "HARD"@, config.default_hard_stint),
        all_stints(data@).filter(counted_on("MEDIUM"@)).len() == 0 ==> averages.0
            == config.default_medium_stint,
        all_stints(data@).filter(counted_on("HARD"@)).len() == 0 ==> averages.1
            == config.default_hard_stint,
{
    let mut all: Vec<Stint> = Vec::new();
    let n = data.len();
    let mut d: usize = 0;
    while d < n
        invariant
            n == data.len(),
            0 <= d <= n,
            all@ == all_stints(data@.take(d as int)),
        decreases n - d,
    {
        let mut stints = segment_stints(&data[d].laps);
        all.append(&mut stints);
        proof {
            assert(data@.take(d + 1).drop_last() == data@.take(d as int));
            assert(data@.take(d + 1).last() == data@[d as int]);
        }
        d += 1;
    }
    assert(data@.take(n as int) == data@);
    average_stint_lengths(&all, config)
}

/// The store of validated laps: one entry per driver, the drivers in the order in which
/// the source table first names them, each driver's laps in ascending order of lap number.
#[derive(Debug, Clone)]
pub struct DataProcessor {
    pub driver_data: Vec<DriverLaps>,
}

/// The laps of all drivers, driver after driver.
pub open spec fn all_laps_of(data: Seq<DriverLaps>) -> Seq<ProcessedLapData>
    decreases data.len(),
{
    if data.len() == 0 {
        Seq::empty()
    } else {
        all_laps_of(data.drop_last()) + data.last().laps@
    }
}

impl ProcessedLapData {
    /// A copy of this lap.
    pub fn duplicate(&self) -> (copy: Self)
        ensures
            copy == *self,
    {
        ProcessedLapData {
            driver: self.driver.clone(),
            lap_number: self.lap_number,
            compound: self.compound.clone(),
            tyre_life: self.tyre_life,
            lap_time_micros: self.lap_time_micros,
            track_temp_micros: self.track_temp_micros,
            time_delta_micros: self.time_delta_micros,
            is_pit_out_lap: self.is_pit_out_lap,
            is_pit_in_lap: self.is_pit_in_lap,
        }
    }
}

impl DataProcessor {
    /// All laps of the store in one list, driver after driver.
    pub fn all_laps(&self) -> (laps: Vec<ProcessedLapData>)
        ensures
            laps@ == all_laps_of(self.driver_data@),
    {
        let mut laps: Vec<ProcessedLapData> = Vec::new();
        let n = self.driver_data.len();
        let mut d: usize = 0;
        while d < n
            invariant
                n == self.driver_data.len(),
                0 <= d <= n,
                laps@ == all_laps_of(self.driver_data@.take(d as int)),
            decreases n - d,
        {
            let own = &self.driver_data[d].laps;
            let ghost before = laps@;
            let m = own.len();
            let mut j: usize = 0;
            while j < m
                invariant
                    m == own.len(),
                    0 <= j <= m,
                    laps@ == before + own@.take(j as int),
                decreases m - j,
            {
                laps.push(own[j].duplicate());
                assert(own@.take(j + 1) == own@.take(j as int).push(own@[j as int]));
                j += 1;
            }
            proof {
                assert(own@.take(m as int) == own@);
                assert(self.driver_data@.take(d + 1).drop_last() == self.driver_data@.take(d as int));
                assert(self.driver_data@.take(d + 1).last() == self.driver_data@[d as int]);
            }
            d += 1;
        }
        assert(self.driver_data@.take(n as int) == self.driver_data@);
        laps
    }
}

/// Distance between the prediction for a lap and the delta it was driven with.
pub open spec fn abs_error(model: DegradationModel, lap: ProcessedLapData, compound: Seq<char>) -> int {
    let predicted = model.predicted(
        lap.tyre_life as int,
        lap.track_temp_micros as int,
        compound,
    );
    let observed = lap.time_delta_micros->Some_0 as int;
    if predicted >= observed {
        predicted - observed
    } else {
        observed - predicted
    }
}

/// The errors of the model over the laps that train `compound`, added up.
pub open spec fn total_abs_error(
    model: DegradationModel,
    laps: Seq<ProcessedLapData>,
    compound: Seq<char>,
) -> int
    decreases laps.len(),
{
    if laps.len() == 0 {
        0
    } else {
        total_abs_error(model, laps.drop_last(), compound) + if trains(compound)(laps.last()) {
            abs_error(model, laps.last(), compound)
        } else {
            0
        }
    }
}

/// Mean absolute error of the model over the laps that train `compound`; a mean over
/// nothing where there is no such lap.
pub open spec fn mean_abs_error(
    model: DegradationModel,
    laps: Seq<ProcessedLapData>,
    compound: Seq<char>,
) -> Mean {
    Mean {
        total: total_abs_error(model, laps, compound) as u128,
        count: laps.filter(trains(compound)).len() as u128,
    }
}

/// Replays every lap that is away from the pits and has a finite delta through the model
/// of its compound, and gives the mean absolute error in millionths of a second, for the
/// medium and for the hard compound in that order.
pub fn evaluate_model_accuracy(model: &DegradationModel, laps: &Vec<ProcessedLapData>) -> (errors: (
    Mean,
    Mean,
))
    requires
        laps.len() <= MAX_REPLAYED_LAPS,
    ensures
        errors.0 == mean_abs_error(*model, laps@, "MEDIUM"@),
        errors.1 == mean_abs_error(*model, laps@, "HARD"@),
{
    let medium = String::from_str("MEDIUM");
    let hard = String::from_str("HARD");
    let medium_state = model.model_for("MEDIUM");
    let hard_state = model.model_for("HARD");
    let mut medium_total: u128 = 0;
    let mut medium_count: u128 = 0;
    let mut hard_total: u128 = 0;
    let mut hard_count: u128 = 0;
    let n = laps.len();
    let mut i: usize = 0;
    proof {
        reveal(Seq::filter);
        assert(laps@.take(0).filter(trains("MEDIUM"@)).len() == 0);
        assert(laps@.take(0).filter(trains("HARD"@)).len() == 0);
    }
    while i < n
        invariant
            n == laps.len(),
            n <= MAX_REPLAYED_LAPS,
            0 <= i <= n,
            medium@ == "MEDIUM"@,
            hard@ == "HARD"@,
            medium_state == model.model_for_spec("MEDIUM"@),
            hard_state == model.model_for_spec("HARD"@),
            medium_count == laps@.take(i as int).filter(trains("MEDIUM"@)).len(),
            hard_count == laps@.take(i as int).filter(trains("HARD"@)).len(),
            medium_total == total_abs_error(*model, laps@.take(i as int), "MEDIUM"@),
            hard_total == total_abs_error(*model, laps@.take(i as int), "HARD"@),
            medium_count <= i,
            hard_count <= i,
            medium_total <= i * 0x1_0000_0000_8000_0000_0000_0000,
            hard_total <= i * 0x1_0000_0000_8000_0000_0000_0000,
        decreases n - i,
    {
        let lap = &laps[i];
        proof {
            lemma_filter_take_step(laps@, trains("MEDIUM"@), i as int);
            lemma_filter_take_step(laps@, trains("HARD"@), i as int);
            assert(laps@.take(i + 1).drop_last() == laps@.take(i as int));
            assert(laps@.take(i + 1).last() == laps@[i as int]);
            assert((i + 1) * 0x1_0000_0000_8000_0000_0000_0000 <= 0x7fff_ffff
                * 0x1_0000_0000_8000_0000_0000_0000) by (nonlinear_arith)
                requires
                    0 <= i + 1 <= 0x7fff_ffff,
            ;
            assert((i + 1) * 0x1_0000_0000_8000_0000_0000_0000 == i
                * 0x1_0000_0000_8000_0000_0000_0000 + 0x1_0000_0000_8000_0000_0000_0000)
                by (nonlinear_arith);
        }
        if !lap.is_pit_out_lap && !lap.is_pit_in_lap {
            if let Some(delta) = lap.time_delta_micros {
                if lap.compound == medium {
                    let p = medium_state.predict(lap.tyre_life, lap.track_temp_micros);
                    medium_total = medium_total + distance(p, delta);
                    medium_count = medium_count + 1;
                }
                if lap.compound == hard {
                    let p = hard_state.predict(lap.tyre_life, lap.track_temp_micros);
                    hard_total = hard_total + distance(p, delta);
                    hard_count = hard_count + 1;
                }
            }
        }
        i += 1;
    }
    assert(laps@.take(n as int) == laps@);
    (
        Mean { total: medium_total, count: medium_count },
        Mean { total: hard_total, count: hard_count },
    )
}

/// Distance between a prediction and an observed delta.
fn distance(predicted: u128, observed: i64) -> (d: u128)
    requires
        predicted < 0x1_0000_0000_0000_0000_0000_0000,
    ensures
        d == if predicted as int >= observed as int {
            predicted as int - observed as int
        } else {
            observed as int - predicted as int
        },
        d <= 0x1_0000_0000_8000_0000_0000_0000,
{
    let p: i128 = predicted as i128;
    let o: i128 = observed as i128;
    if p >= o {
        (p - o) as u128
    } else {
        (o - p) as u128
    }
}

} // verus!
