use tyre_strategy::config::{OutputOrder, SimulationConfig, MAX_REPLAYED_LAPS};
use tyre_strategy::mean::Mean;
use tyre_strategy::model::{Coefficients, DegradationModel, ModelState};
use tyre_strategy::strategy::{
    Compound, PlannedStint, StrategyCandidate, StrategyOutcome, StrategySimulator, Template,
};

fn quadratic_medium() -> DegradationModel {
    DegradationModel {
        hard_model: ModelState::Unavailable,
        medium_model: ModelState::Fitted(Coefficients::new(0, 0, 0, 50_000_000).unwrap()),
    }
}

fn stint(compound: Compound, laps: u32) -> PlannedStint {
    PlannedStint { compound, laps }
}

fn outcome(template: Template, total_delta_micros: u128, pits: u32) -> StrategyOutcome {
    StrategyOutcome { template, total_delta_micros, pits }
}

#[test]
fn mean_rounds_to_nearest_with_ties_up() {
    assert_eq!(Mean { total: 8, count: 2 }.rounded(), 4);
    assert_eq!(Mean { total: 29, count: 2 }.rounded(), 15);
    assert_eq!(Mean { total: 43, count: 3 }.rounded(), 14);
    assert_eq!(Mean { total: 44, count: 3 }.rounded(), 15);
    assert_eq!(Mean { total: 1, count: 3 }.rounded(), 0);
    assert_eq!(Mean { total: 7, count: 0 }.rounded(), 0);
    assert_eq!(Mean::whole(14).rounded(), 14);
    assert_eq!(Mean { total: u128::MAX, count: 1 }.rounded(), u32::MAX);
    assert_eq!(Mean { total: u128::MAX, count: u128::MAX }.rounded(), 1);
    assert_eq!(Mean { total: 4_294_967_295, count: 1 }.rounded(), u32::MAX);
    assert_eq!(Mean { total: 8_589_934_589, count: 2 }.rounded(), 4_294_967_295);
}

#[test]
fn one_stop_medium_hard_is_accepted_for_56_laps() {
    let c = StrategySimulator::candidate(Template::OneStopMediumHard, 14, 42, 56);
    assert_eq!(c.template, Template::OneStopMediumHard);
    assert_eq!(c.stints, vec![stint(Compound::Medium, 14), stint(Compound::Hard, 42)]);
    assert!(c.is_accepted(56));
}

#[test]
fn catalog_is_generated_in_order() {
    assert_eq!(
        StrategySimulator::catalog(),
        vec![
            Template::OneStopMediumHard,
            Template::OneStopHardMedium,
            Template::OneStopHardHard,
            Template::TwoStopMediumHardHard,
            Template::TwoStopHardMediumMedium,
        ]
    );
    assert_eq!(Template::OneStopMediumHard.name(), "1S (M-H)");
    assert_eq!(Template::OneStopHardMedium.name(), "1S (H-M)");
    assert_eq!(Template::OneStopHardHard.name(), "1S (H-H)");
    assert_eq!(Template::TwoStopMediumHardHard.name(), "2S (M-H-H)");
    assert_eq!(Template::TwoStopHardMediumMedium.name(), "2S (H-M-M)");
    assert_eq!(Compound::Medium.name(), "MEDIUM");
    assert_eq!(Compound::Hard.name(), "HARD");
}

#[test]
fn templates_split_the_race() {
    let c = StrategySimulator::candidate(Template::OneStopHardMedium, 14, 42, 56);
    assert_eq!(c.stints, vec![stint(Compound::Hard, 42), stint(Compound::Medium, 14)]);
    let c = StrategySimulator::candidate(Template::OneStopHardHard, 14, 40, 56);
    assert_eq!(c.stints, vec![stint(Compound::Hard, 40), stint(Compound::Hard, 16)]);
    let c = StrategySimulator::candidate(Template::TwoStopMediumHardHard, 14, 42, 56);
    assert_eq!(
        c.stints,
        vec![stint(Compound::Medium, 14), stint(Compound::Hard, 21), stint(Compound::Hard, 21)]
    );
    let c = StrategySimulator::candidate(Template::TwoStopHardMediumMedium, 14, 42, 56);
    assert_eq!(
        c.stints,
        vec![stint(Compound::Hard, 42), stint(Compound::Medium, 7), stint(Compound::Medium, 7)]
    );
}

#[test]
fn odd_lap_goes_to_the_last_stint() {
    let c = StrategySimulator::candidate(Template::TwoStopMediumHardHard, 14, 42, 57);
    assert_eq!(
        c.stints,
        vec![stint(Compound::Medium, 14), stint(Compound::Hard, 21), stint(Compound::Hard, 22)]
    );
    assert!(c.is_accepted(57));
    let c = StrategySimulator::candidate(Template::TwoStopHardMediumMedium, 14, 55, 56);
    assert_eq!(
        c.stints,
        vec![stint(Compound::Hard, 55), stint(Compound::Medium, 0), stint(Compound::Medium, 1)]
    );
    assert!(!c.is_accepted(56));
}

#[test]
fn first_stint_longer_than_the_race_leaves_nothing() {
    let c = StrategySimulator::candidate(Template::OneStopMediumHard, 60, 42, 56);
    assert_eq!(c.stints, vec![stint(Compound::Medium, 60), stint(Compound::Hard, 0)]);
    assert!(!c.is_accepted(56));
    let c = StrategySimulator::candidate(Template::TwoStopMediumHardHard, 60, 42, 56);
    assert_eq!(
        c.stints,
        vec![stint(Compound::Medium, 60), stint(Compound::Hard, 0), stint(Compound::Hard, 0)]
    );
    assert!(!c.is_accepted(56));
}

#[test]
fn candidate_is_rejected_iff_a_stint_is_empty_or_the_sum_is_off() {
    let plan = |stints: Vec<PlannedStint>| StrategyCandidate {
        template: Template::OneStopMediumHard,
        stints,
    };
    assert!(plan(vec![stint(Compound::Medium, 14), stint(Compound::Hard, 42)]).is_accepted(56));
    assert!(!plan(vec![stint(Compound::Medium, 14), stint(Compound::Hard, 41)]).is_accepted(56));
    assert!(!plan(vec![stint(Compound::Medium, 14), stint(Compound::Hard, 43)]).is_accepted(56));
    assert!(!plan(vec![stint(Compound::Medium, 0), stint(Compound::Hard, 56)]).is_accepted(56));
    assert!(!plan(vec![stint(Compound::Medium, 56), stint(Compound::Hard, 0)]).is_accepted(56));
    assert!(plan(vec![stint(Compound::Hard, 56)]).is_accepted(56));
    assert!(!plan(Vec::new()).is_accepted(56));
    assert!(plan(Vec::new()).is_accepted(0));
    assert!(!plan(vec![stint(Compound::Hard, u32::MAX), stint(Compound::Hard, u32::MAX)])
        .is_accepted(u32::MAX));
    assert!(!plan(vec![
        stint(Compound::Hard, u32::MAX),
        stint(Compound::Hard, 57),
        stint(Compound::Hard, 0)
    ])
    .is_accepted(56));
}

#[test]
fn score_adds_predictions_from_age_one_and_one_pit_loss_per_stop() {
    let model = quadratic_medium();
    let config = SimulationConfig::default();
    let c = StrategySimulator::candidate(Template::OneStopMediumHard, 14, 42, 56);
    assert_eq!(c.score(&model, &config), outcome(Template::OneStopMediumHard, 71_750_000, 1));
    let c = StrategySimulator::candidate(Template::TwoStopHardMediumMedium, 14, 42, 56);
    assert_eq!(
        c.score(&model, &config),
        outcome(Template::TwoStopHardMediumMedium, 56_000_000, 2)
    );
    let single = StrategyCandidate {
        template: Template::OneStopHardHard,
        stints: vec![stint(Compound::Medium, 56)],
    };
    // 50_000 * (1 + 4 + ... + 56 * 56) = 50_000 * 60_116
    assert_eq!(
        single.score(&model, &config),
        outcome(Template::OneStopHardHard, 3_005_800_000, 0)
    );
}

#[test]
fn simulation_lists_accepted_plans_in_catalog_order() {
    let model = quadratic_medium();
    let config = SimulationConfig::default();
    let outcomes =
        StrategySimulator::simulate(&model, &Mean::whole(14), &Mean::whole(42), &config);
    assert_eq!(
        outcomes,
        vec![
            outcome(Template::OneStopMediumHard, 71_750_000, 1),
            outcome(Template::OneStopHardMedium, 71_750_000, 1),
            outcome(Template::OneStopHardHard, 21_000_000, 1),
            outcome(Template::TwoStopMediumHardHard, 92_750_000, 2),
            outcome(Template::TwoStopHardMediumMedium, 56_000_000, 2),
        ]
    );
}

#[test]
fn simulation_can_rank_by_score() {
    let model = quadratic_medium();
    let mut config = SimulationConfig::default();
    config.order = OutputOrder::ByScore;
    let outcomes =
        StrategySimulator::simulate(&model, &Mean::whole(14), &Mean::whole(42), &config);
    assert_eq!(
        outcomes,
        vec![
            outcome(Template::OneStopHardHard, 21_000_000, 1),
            outcome(Template::TwoStopHardMediumMedium, 56_000_000, 2),
            outcome(Template::OneStopMediumHard, 71_750_000, 1),
            outcome(Template::OneStopHardMedium, 71_750_000, 1),
            outcome(Template::TwoStopMediumHardHard, 92_750_000, 2),
        ]
    );
}

#[test]
fn simulation_drops_rejected_plans() {
    let model = quadratic_medium();
    let config = SimulationConfig::default();
    // a hard stint as long as the race leaves no lap for a second stint
    let outcomes =
        StrategySimulator::simulate(&model, &Mean::whole(14), &Mean::whole(56), &config);
    assert_eq!(
        outcomes,
        vec![
            outcome(Template::OneStopMediumHard, 71_750_000, 1),
            outcome(Template::TwoStopMediumHardHard, 92_750_000, 2),
        ]
    );
    let none = StrategySimulator::simulate(
        &model,
        &Mean { total: 0, count: 0 },
        &Mean::whole(100),
        &config,
    );
    assert!(none.is_empty());
}

#[test]
fn simulation_rounds_the_averages() {
    let model = quadratic_medium();
    let mut config = SimulationConfig::default();
    config.pit_loss_micros = 0;
    // 27 / 2 rounds to 14, 125 / 3 rounds to 42
    let outcomes = StrategySimulator::simulate(
        &model,
        &Mean { total: 27, count: 2 },
        &Mean { total: 125, count: 3 },
        &config,
    );
    assert_eq!(outcomes.len(), 5);
    assert_eq!(outcomes[0], outcome(Template::OneStopMediumHard, 50_750_000, 1));
    assert_eq!(outcomes[4], outcome(Template::TwoStopHardMediumMedium, 14_000_000, 2));
}

#[test]
fn ranking_keeps_equal_scores_in_order() {
    let input = vec![
        outcome(Template::TwoStopMediumHardHard, 5, 2),
        outcome(Template::OneStopMediumHard, 3, 1),
        outcome(Template::OneStopHardMedium, 5, 1),
        outcome(Template::OneStopHardHard, 3, 1),
        outcome(Template::TwoStopHardMediumMedium, 1, 2),
    ];
    assert_eq!(
        StrategySimulator::rank(&input),
        vec![
            outcome(Template::TwoStopHardMediumMedium, 1, 2),
            outcome(Template::OneStopMediumHard, 3, 1),
            outcome(Template::OneStopHardHard, 3, 1),
            outcome(Template::TwoStopMediumHardHard, 5, 2),
            outcome(Template::OneStopHardMedium, 5, 1),
        ]
    );
    assert!(StrategySimulator::rank(&Vec::new()).is_empty());
}

#[test]
fn reference_settings() {
    let config = SimulationConfig::default();
    assert_eq!(config.total_laps, 56);
    assert_eq!(config.pit_loss_micros, 21_000_000);
    assert_eq!(config.track_temp_micros, 32_000_000);
    assert_eq!(config.default_medium_stint, Mean { total: 14, count: 1 });
    assert_eq!(config.default_hard_stint, Mean { total: 42, count: 1 });
    assert_eq!(config.min_fit_samples, 5);
    assert_eq!(config.lap_limit, MAX_REPLAYED_LAPS);
    assert_eq!(config.effective_lap_limit(), 0x7fff_ffff);
    let mut wide = config;
    wide.lap_limit = usize::MAX;
    assert_eq!(wide.effective_lap_limit(), MAX_REPLAYED_LAPS);
    wide.lap_limit = 7;
    assert_eq!(wide.effective_lap_limit(), 7);
    assert_eq!(config.order, OutputOrder::AsGenerated);
    assert_eq!(config.fit_threshold(), 5);
    let mut low = config;
    low.min_fit_samples = 2;
    assert_eq!(low.fit_threshold(), 5);
    low.min_fit_samples = 9;
    assert_eq!(low.fit_threshold(), 9);
}

#[test]
fn simulating_twice_gives_the_same_outcomes() {
    let model = quadratic_medium();
    let mut config = SimulationConfig::default();
    config.order = OutputOrder::ByScore;
    let a = StrategySimulator::simulate(&model, &Mean::whole(14), &Mean::whole(42), &config);
    let b = StrategySimulator::simulate(&model, &Mean::whole(14), &Mean::whole(42), &config);
    assert_eq!(a, b);
}
