use linfa::traits::Fit;
use linfa::Dataset;
use linfa_linear::LinearRegression;
use ndarray::{Array1, Array2};
use tyre_strategy::config::SimulationConfig;
use tyre_strategy::data::ProcessedLapData;
use tyre_strategy::model::{Coefficients, DegradationModel, TrainingRow};

fn least_squares(rows: &[TrainingRow]) -> Option<(f64, Vec<f64>)> {
    let feats: Vec<f64> = rows
        .iter()
        .flat_map(|r| {
            vec![
                r.tyre_age as f64,
                r.track_temp_micros as f64 / 1_000_000.0,
                r.tyre_age_squared as f64,
            ]
        })
        .collect();
    let targets: Vec<f64> = rows.iter().map(|r| r.time_delta_micros as f64 / 1_000_000.0).collect();
    let x = Array2::from_shape_vec((rows.len(), 3), feats).ok()?;
    let y = Array1::from_vec(targets);
    let fitted = LinearRegression::new().fit(&Dataset::new(x, y)).ok()?;
    Some((fitted.intercept(), fitted.params().to_vec()))
}

fn fixed(intercept: f64, params: &[f64]) -> Coefficients {
    let nanos = |c: f64| (c * 1_000_000_000.0).round() as i64;
    Coefficients::new(nanos(intercept), nanos(params[0]), nanos(params[1]), nanos(params[2]))
        .unwrap()
}

#[test]
fn quadratic_wear_is_fitted_from_the_training_rows() {
    let laps: Vec<ProcessedLapData> = (1..=20u32)
        .map(|age| ProcessedLapData {
            driver: "A".to_string(),
            lap_number: age,
            compound: "MEDIUM".to_string(),
            tyre_life: age,
            lap_time_micros: 90_000_000 + 50_000 * (age * age) as i64,
            track_temp_micros: 30_000_000 + 100_000 * (age % 7) as i64,
            time_delta_micros: Some(50_000 * (age * age) as i64),
            is_pit_out_lap: false,
            is_pit_in_lap: false,
        })
        .collect();
    let config = SimulationConfig::default();
    let rows = DegradationModel::training_rows(&laps, "MEDIUM", &config).unwrap();
    let (intercept, params) = least_squares(&rows).unwrap();
    let fit = fixed(intercept, &params);
    assert_eq!(fit.per_lap_squared_nanos(), 50_000_000);
    let model = DegradationModel::new(&laps, None, Some(fit), &config);
    for lap in &laps {
        let predicted =
            model.predict_degradation(lap.tyre_life, lap.track_temp_micros, "MEDIUM") as i64;
        let off = (predicted - lap.time_delta_micros.unwrap()).abs();
        assert!(off <= 1, "off by {} at age {}", off, lap.tyre_life);
    }
}

#[test]
fn quadratic_wear_at_constant_temperature() {
    let laps: Vec<ProcessedLapData> = (1..=20u32)
        .map(|age| ProcessedLapData {
            driver: "A".to_string(),
            lap_number: age,
            compound: "MEDIUM".to_string(),
            tyre_life: age,
            lap_time_micros: 90_000_000 + 50_000 * (age * age) as i64,
            track_temp_micros: 32_000_000,
            time_delta_micros: Some(50_000 * (age * age) as i64),
            is_pit_out_lap: false,
            is_pit_in_lap: false,
        })
        .collect();
    let config = SimulationConfig::default();
    let rows = DegradationModel::training_rows(&laps, "MEDIUM", &config).unwrap();
    let (intercept, params) = least_squares(&rows).unwrap();
    let fit = fixed(intercept, &params);
    let model = DegradationModel::new(&laps, None, Some(fit), &config);
    for lap in &laps {
        let predicted =
            model.predict_degradation(lap.tyre_life, lap.track_temp_micros, "MEDIUM") as i64;
        let off = (predicted - lap.time_delta_micros.unwrap()).abs();
        assert!(off <= 1, "off by {} at age {} with {:?}", off, lap.tyre_life, fit);
    }
}
