use tyre_strategy::config::SimulationConfig;
use tyre_strategy::data::{
    evaluate_model_accuracy, DataProcessor, DriverLaps, ProcessedLapData,
};
use tyre_strategy::ingest::RawLapData;
use tyre_strategy::mean::Mean;
use tyre_strategy::model::{Coefficients, DegradationModel, ModelState};
use tyre_strategy::report::{analyse, AnalysisError};
use tyre_strategy::strategy::Template;

fn row(driver: &str, lap: i64, compound: &str, time: i64) -> RawLapData {
    RawLapData {
        driver: driver.to_string(),
        lap_number_micros: Some(lap * 1_000_000),
        compound: compound.to_string(),
        tyre_life_micros: Some((lap - 1) * 1_000_000),
        lap_time_micros: Some(time),
        track_temp_micros: Some(30_000_000),
        has_pit_out_time: false,
        has_pit_in_time: false,
    }
}

fn summary(laps: &[ProcessedLapData]) -> Vec<(u32, i64, Option<i64>)> {
    laps.iter().map(|l| (l.lap_number, l.lap_time_micros, l.time_delta_micros)).collect()
}

#[test]
fn rows_are_grouped_sorted_and_timed() {
    let mut out = row("HAM", 1, "medium", 95_500_000);
    out.has_pit_out_time = true;
    let mut boxed = row("VER", 1, "Soft", 99_000_000);
    boxed.has_pit_in_time = true;
    let rows = vec![
        row("HAM", 2, "medium", 96_000_000),
        boxed,
        out,
        row("HAM", 4, "medium", 0),
        row("HAM", 3, "hard", 95_000_000),
    ];
    let store = DataProcessor::new(&rows);
    assert_eq!(store.driver_data.len(), 2);
    let ham = &store.driver_data[0];
    assert_eq!(ham.driver, "HAM");
    assert_eq!(
        summary(&ham.laps),
        vec![
            (1, 95_500_000, Some(500_000)),
            (2, 96_000_000, Some(1_000_000)),
            (3, 95_000_000, Some(0)),
        ]
    );
    assert_eq!(ham.laps[0].compound, "MEDIUM");
    assert_eq!(ham.laps[2].compound, "HARD");
    assert!(ham.laps[0].is_pit_out_lap);
    assert!(!ham.laps[0].is_pit_in_lap);
    assert_eq!(ham.laps[1].tyre_life, 1);
    assert_eq!(ham.laps[1].track_temp_micros, 30_000_000);
    assert!(ham.laps.iter().all(|l| l.driver == "HAM"));
    // every lap of VER touches the pits: the delta is taken against zero
    let ver = &store.driver_data[1];
    assert_eq!(ver.driver, "VER");
    assert_eq!(summary(&ver.laps), vec![(1, 99_000_000, Some(99_000_000))]);
    assert_eq!(ver.laps[0].compound, "SOFT");
    assert!(ver.laps[0].is_pit_in_lap);
}

#[test]
fn a_pit_lap_faster_than_the_best_has_a_negative_delta() {
    let mut boxed = row("ALO", 2, "HARD", 90_000_000);
    boxed.has_pit_in_time = true;
    let store = DataProcessor::new(&vec![row("ALO", 1, "HARD", 94_000_000), boxed]);
    assert_eq!(
        summary(&store.driver_data[0].laps),
        vec![(1, 94_000_000, Some(0)), (2, 90_000_000, Some(-4_000_000))]
    );
}

#[test]
fn rows_of_one_lap_number_keep_their_order() {
    let rows = vec![
        row("A", 2, "HARD", 92_000_000),
        row("A", 1, "HARD", 91_000_000),
        row("A", 2, "HARD", 93_000_000),
        row("A", 1, "HARD", 94_000_000),
    ];
    let store = DataProcessor::new(&rows);
    assert_eq!(
        summary(&store.driver_data[0].laps),
        vec![
            (1, 91_000_000, Some(0)),
            (1, 94_000_000, Some(3_000_000)),
            (2, 92_000_000, Some(1_000_000)),
            (2, 93_000_000, Some(2_000_000)),
        ]
    );
}

#[test]
fn invalid_rows_are_dropped() {
    let good = row("A", 1, "HARD", 90_000_000);
    let mut rows = Vec::new();
    let mut r = good.clone();
    r.lap_time_micros = Some(0);
    rows.push(r);
    let mut r = good.clone();
    r.lap_time_micros = Some(-1);
    rows.push(r);
    let mut r = good.clone();
    r.lap_time_micros = Some(300_000_000);
    rows.push(r);
    let mut r = good.clone();
    r.lap_time_micros = None;
    rows.push(r);
    let mut r = good.clone();
    r.track_temp_micros = Some(0);
    rows.push(r);
    let mut r = good.clone();
    r.track_temp_micros = None;
    rows.push(r);
    let mut r = good.clone();
    r.tyre_life_micros = Some(-1);
    rows.push(r);
    let mut r = good.clone();
    r.tyre_life_micros = None;
    rows.push(r);
    let mut r = good.clone();
    r.lap_number_micros = Some(999_999);
    rows.push(r);
    let mut r = good.clone();
    r.lap_number_micros = None;
    rows.push(r);
    let mut r = good.clone();
    r.driver = String::new();
    rows.push(r);
    let mut r = good.clone();
    r.compound = String::new();
    rows.push(r);
    for r in &rows {
        assert!(!r.is_valid());
    }
    assert!(good.is_valid());
    assert!(DataProcessor::new(&rows).driver_data.is_empty());
    assert!(DataProcessor::new(&Vec::new()).driver_data.is_empty());

    let mut edge = good.clone();
    edge.lap_time_micros = Some(299_999_999);
    edge.track_temp_micros = Some(1);
    edge.tyre_life_micros = Some(0);
    edge.lap_number_micros = Some(1_000_000);
    assert!(edge.is_valid());
    rows.push(edge);
    let store = DataProcessor::new(&rows);
    assert_eq!(store.driver_data.len(), 1);
    assert_eq!(summary(&store.driver_data[0].laps), vec![(1, 299_999_999, Some(0))]);
}

#[test]
fn counts_are_rounded_to_whole_numbers() {
    let mut r = row("A", 1, "HARD", 90_000_000);
    r.lap_number_micros = Some(12_499_999);
    r.tyre_life_micros = Some(3_500_000);
    let mut s = row("A", 1, "HARD", 91_000_000);
    s.lap_number_micros = Some(12_500_000);
    s.tyre_life_micros = Some(499_999);
    let mut t = row("A", 1, "HARD", 92_000_000);
    t.lap_number_micros = Some(i64::MAX);
    t.tyre_life_micros = Some(4_294_967_294_500_000);
    let mut u = row("A", 1, "HARD", 93_000_000);
    u.lap_number_micros = Some(4_294_967_294_499_999);
    u.tyre_life_micros = Some(i64::MAX);
    let store = DataProcessor::new(&vec![r, s, t, u]);
    let laps: Vec<(u32, u32)> =
        store.driver_data[0].laps.iter().map(|l| (l.lap_number, l.tyre_life)).collect();
    assert_eq!(
        laps,
        vec![(12, 4), (13, 0), (4_294_967_294, u32::MAX), (u32::MAX, u32::MAX)]
    );
}

#[test]
fn all_laps_lists_driver_after_driver() {
    let rows = vec![
        row("B", 2, "HARD", 92_000_000),
        row("A", 1, "HARD", 91_000_000),
        row("B", 1, "HARD", 93_000_000),
    ];
    let store = DataProcessor::new(&rows);
    let laps = store.all_laps();
    let listed: Vec<(String, u32, Option<i64>)> =
        laps.iter().map(|l| (l.driver.clone(), l.lap_number, l.time_delta_micros)).collect();
    assert_eq!(
        listed,
        vec![
            ("B".to_string(), 1, Some(1_000_000)),
            ("B".to_string(), 2, Some(0)),
            ("A".to_string(), 1, Some(0)),
        ]
    );
    let copy = laps[0].duplicate();
    assert_eq!(copy.compound, "HARD");
    assert_eq!(copy.lap_time_micros, 93_000_000);
    assert_eq!(copy.track_temp_micros, 30_000_000);
    assert_eq!(copy.tyre_life, 0);
}

fn observed(compound: &str, tyre_life: u32, delta: Option<i64>) -> ProcessedLapData {
    ProcessedLapData {
        driver: "A".to_string(),
        lap_number: tyre_life + 1,
        compound: compound.to_string(),
        tyre_life,
        lap_time_micros: 95_000_000,
        track_temp_micros: 30_000_000,
        time_delta_micros: delta,
        is_pit_out_lap: false,
        is_pit_in_lap: false,
    }
}

#[test]
fn accuracy_is_the_mean_absolute_error_per_compound() {
    let model = DegradationModel {
        hard_model: ModelState::Unavailable,
        medium_model: ModelState::Fitted(
            Coefficients::new(1_000_000_000, 100_000_000, 0, 0).unwrap(),
        ),
    };
    let mut boxed = observed("MEDIUM", 9, Some(77));
    boxed.is_pit_in_lap = true;
    let mut out = observed("HARD", 9, Some(77));
    out.is_pit_out_lap = true;
    let laps = vec![
        observed("MEDIUM", 0, Some(500_000)),
        observed("MEDIUM", 5, Some(2_500_000)),
        observed("MEDIUM", 2, None),
        boxed,
        observed("HARD", 3, Some(300_000)),
        observed("HARD", 4, Some(-100_000)),
        out,
        observed("SOFT", 1, Some(9_000_000)),
    ];
    let (medium, hard) = evaluate_model_accuracy(&model, &laps);
    // |1_000_000 - 500_000| + |1_500_000 - 2_500_000|
    assert_eq!(medium, Mean { total: 1_500_000, count: 2 });
    // no hard model: the prediction is zero
    assert_eq!(hard, Mean { total: 400_000, count: 2 });
    let (medium, hard) = evaluate_model_accuracy(&model, &Vec::new());
    assert_eq!(medium, Mean { total: 0, count: 0 });
    assert_eq!(hard, Mean { total: 0, count: 0 });
}

fn race() -> Vec<RawLapData> {
    let mut rows = Vec::new();
    for lap in 1..=8 {
        let mut r = row("A", lap, "medium", 90_000_000 + lap * 100_000);
        r.has_pit_in_time = lap == 8;
        rows.push(r);
    }
    for lap in 9..=20 {
        let mut r = row("A", lap, "hard", 91_000_000);
        r.has_pit_out_time = lap == 9;
        rows.push(r);
    }
    rows
}

#[test]
fn analysis_reports_averages_errors_and_outcomes() {
    let store = DataProcessor::new(&race());
    let mut config = SimulationConfig::default();
    config.total_laps = 20;
    let flat = Coefficients::new(250_000_000, 0, 0, 0).unwrap();
    let analysis = analyse(&store, None, Some(flat), &config).unwrap();
    assert_eq!(analysis.model.medium_model, ModelState::Fitted(flat));
    assert_eq!(analysis.model.hard_model, ModelState::Unavailable);
    assert_eq!(analysis.average_medium, Mean { total: 8, count: 1 });
    assert_eq!(analysis.average_hard, Mean { total: 12, count: 1 });
    // medium training laps 1..=7 have deltas 0, 100_000, ..., 600_000 against 250_000
    assert_eq!(analysis.medium_error, Mean { total: 1_250_000, count: 7 });
    // hard training laps 10..=20 have a delta of 900_000 against no model
    assert_eq!(analysis.hard_error, Mean { total: 9_900_000, count: 11 });
    let shown: Vec<(Template, u128, u32)> =
        analysis.outcomes.iter().map(|o| (o.template, o.total_delta_micros, o.pits)).collect();
    assert_eq!(
        shown,
        vec![
            (Template::OneStopMediumHard, 8 * 250_000 + 21_000_000, 1),
            (Template::OneStopHardMedium, 8 * 250_000 + 21_000_000, 1),
            (Template::OneStopHardHard, 21_000_000, 1),
            (Template::TwoStopMediumHardHard, 8 * 250_000 + 42_000_000, 2),
            (Template::TwoStopHardMediumMedium, 8 * 250_000 + 42_000_000, 2),
        ]
    );
}

#[test]
fn analysis_fails_without_data_or_models() {
    let config = SimulationConfig::default();
    let fit = Coefficients::new(1, 0, 0, 0);
    let empty = DataProcessor { driver_data: Vec::new() };
    assert_eq!(analyse(&empty, fit, fit, &config).unwrap_err(), AnalysisError::NoData);
    let store = DataProcessor::new(&race());
    assert_eq!(analyse(&store, None, None, &config).unwrap_err(), AnalysisError::NoModel);
    let few = DataProcessor {
        driver_data: vec![DriverLaps {
            driver: "A".to_string(),
            laps: vec![observed("HARD", 1, Some(0))],
        }],
    };
    assert_eq!(analyse(&few, fit, fit, &config).unwrap_err(), AnalysisError::NoModel);
    let mut narrow = config;
    narrow.lap_limit = 19;
    assert_eq!(analyse(&store, fit, fit, &narrow).unwrap_err(), AnalysisError::TooManyLaps);
    narrow.lap_limit = 20;
    assert!(analyse(&store, fit, fit, &narrow).is_ok());
    assert_eq!(analyse(&empty, fit, fit, &narrow).unwrap_err(), AnalysisError::NoData);
    narrow.lap_limit = 0;
    assert_eq!(analyse(&few, fit, fit, &narrow).unwrap_err(), AnalysisError::TooManyLaps);
    assert_eq!(AnalysisError::NoData.message(), "No data found.");
    assert_eq!(AnalysisError::NoModel.message(), "Failed to build any models.");
    assert_eq!(AnalysisError::TooManyLaps.message(), "Too many laps.");
}

#[test]
fn processing_twice_gives_the_same_store() {
    let a = DataProcessor::new(&race());
    let b = DataProcessor::new(&race());
    assert_eq!(a.driver_data.len(), b.driver_data.len());
    for (x, y) in a.driver_data.iter().zip(b.driver_data.iter()) {
        assert_eq!(x.driver, y.driver);
        assert_eq!(summary(&x.laps), summary(&y.laps));
    }
}
