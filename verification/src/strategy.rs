//! The strategy simulator: a fixed catalog of one-stop and two-stop plans, each scored by
//! the time that the degradation model predicts it to lose.

use crate::config::{OutputOrder, SimulationConfig};
use crate::mean::Mean;
use crate::model::{DegradationModel, ModelState};
use crate::sequence::{
    is_stable_sort_of, lemma_filter_take_step, lemma_insert_keeps_stable_sort,
    lemma_stable_sort_is_unique,
};
use vstd::prelude::*;

verus! {

/// A compound that the simulator plans with.
#[derive(Clone, Copy, Debug, PartialEq, Eq, Structural)]
pub enum Compound {
    Medium,
    Hard,
}

/// One stint of a plan: a compound and a number of laps.
#[derive(Clone, Copy, Debug, PartialEq, Eq, Structural)]
pub struct PlannedStint {
    pub compound: Compound,
    pub laps: u32,
}

/// The plans of the catalog, in catalog order.
#[derive(Clone, Copy, Debug, PartialEq, Eq, Structural)]
pub enum Template {
    OneStopMediumHard,
    OneStopHardMedium,
    OneStopHardHard,
    TwoStopMediumHardHard,
    TwoStopHardMediumMedium,
}

/// A plan of the catalog with its stint lengths worked out; it may still be rejected.
#[derive(Debug, Clone)]
pub struct StrategyCandidate {
    pub template: Template,
    pub stints: Vec<PlannedStint>,
}

/// An accepted plan with its predicted time loss, in millionths of a second, and its
/// number of pit stops.
#[derive(Clone, Copy, Debug, PartialEq, Eq, Structural)]
pub struct StrategyOutcome {
    pub template: Template,
    pub total_delta_micros: u128,
    pub pits: u32,
}

pub struct StrategySimulator;

impl Compound {
    /// The compound's name as lap records spell it.
    pub open spec fn name_spec(self) -> Seq<char> {
        match self {
            Compound::Medium => "MEDIUM"@,
            Compound::Hard => "HARD"@,
        }
    }

    pub fn name(self) -> (s: &'static str)
        ensures
            s@ == self.name_spec(),
    {
        match self {
            Compound::Medium => "MEDIUM",
            Compound::Hard => "HARD",
        }
    }
}

impl Template {
    /// The name under which the plan is shown.
    pub open spec fn name_spec(self) -> Seq<char> {
        match self {
            Template::OneStopMediumHard => "1S (M-H)"@,
            Template::OneStopHardMedium => "1S (H-M)"@,
            Template::OneStopHardHard => "1S (H-H)"@,
            Template::TwoStopMediumHardHard => "2S (M-H-H)"@,
            Template::TwoStopHardMediumMedium => "2S (H-M-M)"@,
        }
    }

    pub fn name(self) -> (s: &'static str)
        ensures
            s@ == self.name_spec(),
    {
        match self {
            Template::OneStopMediumHard => "1S (M-H)",
            Template::OneStopHardMedium => "1S (H-M)",
            Template::OneStopHardHard => "1S (H-H)",
            Template::TwoStopMediumHardHard => "2S (M-H-H)",
            Template::TwoStopHardMediumMedium => "2S (H-M-M)",
        }
    }
}

/// The five plans in the order in which they are generated.
pub open spec fn catalog_templates() -> Seq<Template> {
    seq![
        Template::OneStopMediumHard,
        Template::OneStopHardMedium,
        Template::OneStopHardHard,
        Template::TwoStopMediumHardHard,
        Template::TwoStopHardMediumMedium,
    ]
}

/// Laps left of `total` after `used`; none when `used` is more than `total`.
pub open spec fn laps_left(total: int, used: int) -> int {
    if used > total {
        0
    } else {
        total - used
    }
}

/// A plan of two stints: `first` laps, then the rest of the race.
pub open spec fn one_stop(a: Compound, b: Compound, first: int, total: int) -> Seq<PlannedStint> {
    seq![
        PlannedStint { compound: a, laps: first as u32 },
        PlannedStint { compound: b, laps: laps_left(total, first) as u32 },
    ]
}

/// A plan of three stints: `first` laps, then the rest of the race in two halves, the odd
/// lap going to the last stint.
pub open spec fn two_stop(a: Compound, b: Compound, first: int, total: int) -> Seq<PlannedStint> {
    let rest = laps_left(total, first);
    seq![
        PlannedStint { compound: a, laps: first as u32 },
        PlannedStint { compound: b, laps: (rest / 2) as u32 },
        PlannedStint { compound: b, laps: (rest - rest / 2) as u32 },
    ]
}

/// The stints of a plan for average stints of `medium` and `hard` laps and a race of
/// `total` laps.
pub open spec fn template_stints(t: Template, medium: int, hard: int, total: int) -> Seq<
    PlannedStint,
> {
    match t {
        Template::OneStopMediumHard => one_stop(Compound::Medium, Compound::Hard, medium, total),
        Template::OneStopHardMedium => one_stop(Compound::Hard, Compound::Medium, hard, total),
        Template::OneStopHardHard => one_stop(Compound::Hard, Compound::Hard, hard, total),
        Template::TwoStopMediumHardHard => two_stop(
            Compound::Medium,
            Compound::Hard,
            medium,
            total,
        ),
        Template::TwoStopHardMediumMedium => two_stop(
            Compound::Hard,
            Compound::Medium,
            hard,
            total,
        ),
    }
}

/// Laps of a plan, all stints together.
pub open spec fn plan_laps(stints: Seq<PlannedStint>) -> int
    decreases stints.len(),
{
    if stints.len() == 0 {
        0
    } else {
        plan_laps(stints.drop_last()) + stints.last().laps
    }
}

/// Every stint of the plan has at least one lap.
pub open spec fn all_positive(stints: Seq<PlannedStint>) -> bool {
    forall|i: int| 0 <= i < stints.len() ==> (#[trigger] stints[i]).laps > 0
}

/// A plan is accepted when every stint has at least one lap and the stints add up to the
/// race distance; it is rejected otherwise.
pub open spec fn accepted(stints: Seq<PlannedStint>, total_laps: int) -> bool {
    all_positive(stints) && plan_laps(stints) == total_laps
}

/// Time lost over a stint of `laps` laps on a fresh tyre: the predictions for the tyre
/// ages 1 to `laps`, added up.
pub open spec fn stint_loss(state: ModelState, laps: int, temp_micros: int) -> int
    decreases laps,
{
    if laps <= 0 {
        0
    } else {
        stint_loss(state, laps - 1, temp_micros) + state.predicted(laps, temp_micros)
    }
}

/// Time lost to tyre wear over all stints of a plan.
pub open spec fn wear_loss(model: DegradationModel, stints: Seq<PlannedStint>, temp_micros: int) -> int
    decreases stints.len(),
{
    if stints.len() == 0 {
        0
    } else {
        wear_loss(model, stints.drop_last(), temp_micros) + stint_loss(
            model.model_for_spec(stints.last().compound.name_spec()),
            stints.last().laps as int,
            temp_micros,
        )
    }
}

/// Pit stops of a plan: one between each stint and the next.
pub open spec fn stops(stints: Seq<PlannedStint>) -> int {
    if stints.len() == 0 {
        0
    } else {
        stints.len() - 1
    }
}

/// Predicted time loss of a plan: tyre wear over all stints, and the pit loss once per
/// stop.
pub open spec fn total_loss(
    model: DegradationModel,
    stints: Seq<PlannedStint>,
    config: SimulationConfig,
) -> int {
    wear_loss(model, stints, config.track_temp_micros as int) + stops(stints)
        * config.pit_loss_micros
}

/// The outcome of an accepted plan.
pub open spec fn outcome_of(
    t: Template,
    stints: Seq<PlannedStint>,
    model: DegradationModel,
    config: SimulationConfig,
) -> StrategyOutcome {
    StrategyOutcome {
        template: t,
        total_delta_micros: total_loss(model, stints, config) as u128,
        pits: stops(stints) as u32,
    }
}

/// The plans of the catalog that are accepted for a race of `total` laps.
pub open spec fn viable(medium: int, hard: int, total: int) -> spec_fn(Template) -> bool {
    |t: Template| accepted(template_stints(t, medium, hard, total), total)
}

/// The outcome of each plan of the catalog.
pub open spec fn scored(
    medium: int,
    hard: int,
    model: DegradationModel,
    config: SimulationConfig,
) -> spec_fn(Template) -> StrategyOutcome {
    |t: Template|
        outcome_of(t, template_stints(t, medium, hard, config.total_laps as int), model, config)
}

/// The outcomes of the accepted plans, in catalog order.
pub open spec fn simulated(
    model: DegradationModel,
    medium: int,
    hard: int,
    config: SimulationConfig,
) -> Seq<StrategyOutcome> {
    catalog_templates().filter(viable(medium, hard, config.total_laps as int)).map_values(
        scored(medium, hard, model, config),
    )
}

/// The key by which outcomes are ranked: the predicted time loss.
pub open spec fn loss_key() -> spec_fn(StrategyOutcome) -> int {
    |o: StrategyOutcome| o.total_delta_micros as int
}

/// `outcomes` is what a simulation with these inputs gives: the outcomes of the accepted
/// plans, in catalog order or ranked by predicted time loss as `config` asks.
pub open spec fn is_simulation_of(
    outcomes: Seq<StrategyOutcome>,
    model: DegradationModel,
    medium: int,
    hard: int,
    config: SimulationConfig,
) -> bool {
    match config.order {
        OutputOrder::AsGenerated => outcomes == simulated(model, medium, hard, config),
        OutputOrder::ByScore => is_stable_sort_of(
            outcomes,
            simulated(model, medium, hard, config),
            loss_key(),
        ),
    }
}

/// Two simulations with the same model, the same average stints and the same settings
/// give the same outcomes in the same order.
pub proof fn lemma_simulation_is_determined(
    a: Seq<StrategyOutcome>,
    b: Seq<StrategyOutcome>,
    model: DegradationModel,
    medium: int,
    hard: int,
    config: SimulationConfig,
)
    requires
        is_simulation_of(a, model, medium, hard, config),
        is_simulation_of(b, model, medium, hard, config),
    ensures
        a == b,
{
    if config.order == OutputOrder::ByScore {
        lemma_stable_sort_is_unique(a, b, simulated(model, medium, hard, config), loss_key());
    }
}

/// A plan has at least as many laps as any of its beginnings.
proof fn lemma_plan_laps_prefix(stints: Seq<PlannedStint>, i: int)
    requires
        0 <= i <= stints.len(),
    ensures
        0 <= plan_laps(stints.take(i)) <= plan_laps(stints),
    decreases stints.len() - i,
{
    if i < stints.len() {
        assert(stints.take(i + 1).drop_last() == stints.take(i));
        lemma_plan_laps_prefix(stints, i + 1);
        lemma_plan_laps_nonnegative(stints.take(i));
    } else {
        assert(stints.take(i) == stints);
        lemma_plan_laps_nonnegative(stints);
    }
}

proof fn lemma_plan_laps_nonnegative(stints: Seq<PlannedStint>)
    ensures
        plan_laps(stints) >= 0,
    decreases stints.len(),
{
    if stints.len() > 0 {
        lemma_plan_laps_nonnegative(stints.drop_last());
    }
}

/// A plan whose stints all have a lap has at least as many laps as stints.
proof fn lemma_plan_laps_at_least_len(stints: Seq<PlannedStint>)
    requires
        all_positive(stints),
    ensures
        plan_laps(stints) >= stints.len(),
    decreases stints.len(),
{
    if stints.len() > 0 {
        assert(forall|i: int|
            0 <= i < stints.drop_last().len() ==> #[trigger] stints.drop_last()[i] == stints[i]);
        lemma_plan_laps_at_least_len(stints.drop_last());
        assert(stints.last().laps > 0);
    }
}

/// Time lost over one stint of `laps` laps on a fresh tyre.
fn stint_loss_of(state: ModelState, laps: u32, temp_micros: i64) -> (loss: u128)
    ensures
        loss == stint_loss(state, laps as int, temp_micros as int),
        loss <= laps * 0xffff_ffff_ffff_ffff_ffff_ffff,
{
    let mut loss: u128 = 0;
    let mut age: u32 = 0;
    while age < laps
        invariant
            0 <= age <= laps,
            loss == stint_loss(state, age as int, temp_micros as int),
            loss <= age * 0xffff_ffff_ffff_ffff_ffff_ffff,
        decreases laps - age,
    {
        age = age + 1;
        let p = state.predict(age, temp_micros);
        assert(age * 0xffff_ffff_ffff_ffff_ffff_ffff <= 0xffff_ffff
            * 0xffff_ffff_ffff_ffff_ffff_ffff) by (nonlinear_arith)
            requires
                0 <= age <= 0xffff_ffff,
        ;
        loss = loss + p;
    }
    loss
}

impl StrategyCandidate {
    /// Tells whether the plan is accepted for a race of `total_laps` laps: rejected if and
    /// only if a stint has no lap or the stints do not add up to `total_laps`.
    pub fn is_accepted(&self, total_laps: u32) -> (ok: bool)
        ensures
            ok == accepted(self.stints@, total_laps as int),
            !ok <==> (exists|i: int| 0 <= i < self.stints.len() && self.stints[i].laps == 0)
                || plan_laps(self.stints@) != total_laps,
    {
        let n = self.stints.len();
        let mut laps: u64 = 0;
        let mut i: usize = 0;
        while i < n
            invariant
                n == self.stints.len(),
                0 <= i <= n,
                laps == plan_laps(self.stints@.take(i as int)),
                laps <= total_laps,
                all_positive(self.stints@.take(i as int)),
            decreases n - i,
        {
            let stint_laps = self.stints[i].laps;
            proof {
                assert(self.stints@.take(i + 1).drop_last() == self.stints@.take(i as int));
                lemma_plan_laps_prefix(self.stints@, i + 1);
            }
            if stint_laps == 0 {
                return false;
            }
            laps = laps + stint_laps as u64;
            if laps > total_laps as u64 {
                return false;
            }
            i += 1;
        }
        assert(self.stints@.take(n as int) == self.stints@);
        laps == total_laps as u64
    }

    /// Scores an accepted plan: the predicted time loss over all stints, each begun on a
    /// fresh tyre, and the pit loss once per stop.
    pub fn score(&self, model: &DegradationModel, config: &SimulationConfig) -> (outcome:
        StrategyOutcome)
        requires
            accepted(self.stints@, config.total_laps as int),
        ensures
            outcome == outcome_of(self.template, self.stints@, *model, *config),
            outcome.total_delta_micros == total_loss(*model, self.stints@, *config),
            outcome.pits == stops(self.stints@),
    {
        let n = self.stints.len();
        let temp = config.track_temp_micros;
        let mut wear: u128 = 0;
        let mut laps: u64 = 0;
        let mut i: usize = 0;
        while i < n
            invariant
                n == self.stints.len(),
                0 <= i <= n,
                temp == config.track_temp_micros,
                accepted(self.stints@, config.total_laps as int),
                laps == plan_laps(self.stints@.take(i as int)),
                wear == wear_loss(*model, self.stints@.take(i as int), temp as int),
                wear <= laps * 0xffff_ffff_ffff_ffff_ffff_ffff,
            decreases n - i,
        {
            let stint = self.stints[i];
            proof {
                assert(self.stints@.take(i + 1).drop_last() == self.stints@.take(i as int));
                lemma_plan_laps_prefix(self.stints@, i + 1);
                assert((laps + stint.laps) * 0xffff_ffff_ffff_ffff_ffff_ffff <= 0xffff_ffff
                    * 0xffff_ffff_ffff_ffff_ffff_ffff) by (nonlinear_arith)
                    requires
                        0 <= laps + stint.laps <= 0xffff_ffff,
                ;
                assert((laps + stint.laps) * 0xffff_ffff_ffff_ffff_ffff_ffff == laps
                    * 0xffff_ffff_ffff_ffff_ffff_ffff + stint.laps
                    * 0xffff_ffff_ffff_ffff_ffff_ffff) by (nonlinear_arith);
            }
            let state = model.model_for(stint.compound.name());
            let loss = stint_loss_of(state, stint.laps, temp);
            wear = wear + loss;
            laps = laps + stint.laps as u64;
            i += 1;
        }
        proof {
            assert(self.stints@.take(n as int) == self.stints@);
            lemma_plan_laps_at_least_len(self.stints@);
            assert(laps * 0xffff_ffff_ffff_ffff_ffff_ffff <= 0xffff_ffff
                * 0xffff_ffff_ffff_ffff_ffff_ffff) by (nonlinear_arith)
                requires
                    0 <= laps <= 0xffff_ffff,
            ;
        }
        let pits: u32 = if n == 0 {
            0
        } else {
            (n - 1) as u32
        };
        assert(pits * config.pit_loss_micros <= 0xffff_ffff * 0xffff_ffff_ffff_ffff)
            by (nonlinear_arith)
            requires
                0 <= pits <= 0xffff_ffff,
                0 <= config.pit_loss_micros <= 0xffff_ffff_ffff_ffff,
        ;
        let penalty: u128 = pits as u128 * config.pit_loss_micros as u128;
        StrategyOutcome { template: self.template, total_delta_micros: wear + penalty, pits }
    }
}

/// Laps left of `total` after `used`.
fn remaining(total: u32, used: u32) -> (left: u32)
    ensures
        left == laps_left(total as int, used as int),
{
    if used > total {
        0
    } else {
        total - used
    }
}

fn one_stop_plan(a: Compound, b: Compound, first: u32, total: u32) -> (stints: Vec<PlannedStint>)
    ensures
        stints@ == one_stop(a, b, first as int, total as int),
{
    let mut stints: Vec<PlannedStint> = Vec::new();
    stints.push(PlannedStint { compound: a, laps: first });
    stints.push(PlannedStint { compound: b, laps: remaining(total, first) });
    stints
}

fn two_stop_plan(a: Compound, b: Compound, first: u32, total: u32) -> (stints: Vec<PlannedStint>)
    ensures
        stints@ == two_stop(a, b, first as int, total as int),
{
    let rest = remaining(total, first);
    let second = rest / 2;
    let mut stints: Vec<PlannedStint> = Vec::new();
    stints.push(PlannedStint { compound: a, laps: first });
    stints.push(PlannedStint { compound: b, laps: second });
    stints.push(PlannedStint { compound: b, laps: rest - second });
    stints
}

/// Puts `outcome` behind the outcomes of `ranked` that lose no more time than it.
fn insert_by_loss(ranked: &mut Vec<StrategyOutcome>, outcome: StrategyOutcome, Ghost(source): Ghost<
    Seq<StrategyOutcome>,
>)
    requires
        is_stable_sort_of(old(ranked)@, source, loss_key()),
    ensures
        is_stable_sort_of(final(ranked)@, source.push(outcome), loss_key()),
{
    let mut p: usize = ranked.len();
    while p > 0 && ranked[p - 1].total_delta_micros > outcome.total_delta_micros
        invariant
            0 <= p <= ranked.len(),
            ranked@ == old(ranked)@,
            forall|i: int|
                p <= i < ranked.len() ==> loss_key()(#[trigger] ranked[i]) > loss_key()(outcome),
        decreases p,
    {
        p -= 1;
    }
    proof {
        assert forall|i: int| 0 <= i < p implies loss_key()(#[trigger] ranked[i]) <= loss_key()(
            outcome,
        ) by {
            assert(loss_key()(ranked[p - 1]) <= loss_key()(outcome));
            assert(loss_key()(ranked@[i]) <= loss_key()(ranked@[p - 1]));
        }
        lemma_insert_keeps_stable_sort(ranked@, source, loss_key(), outcome, p as int);
    }
    ranked.insert(p, outcome);
}

impl StrategySimulator {
    /// Works out the stints of one plan of the catalog.
    pub fn candidate(t: Template, medium: u32, hard: u32, total_laps: u32) -> (c: StrategyCandidate)
        ensures
            c.template == t,
            c.stints@ == template_stints(t, medium as int, hard as int, total_laps as int),
    {
        let stints = match t {
            Template::OneStopMediumHard => one_stop_plan(
                Compound::Medium,
                Compound::Hard,
                medium,
                total_laps,
            ),
            Template::OneStopHardMedium => one_stop_plan(
                Compound::Hard,
                Compound::Medium,
                hard,
                total_laps,
            ),
            Template::OneStopHardHard => one_stop_plan(
                Compound::Hard,
                Compound::Hard,
                hard,
                total_laps,
            ),
            Template::TwoStopMediumHardHard => two_stop_plan(
                Compound::Medium,
                Compound::Hard,
                medium,
                total_laps,
            ),
            Template::TwoStopHardMediumMedium => two_stop_plan(
                Compound::Hard,
                Compound::Medium,
                hard,
                total_laps,
            ),
        };
        StrategyCandidate { template: t, stints }
    }

    /// The five plans of the catalog in catalog order.
    pub fn catalog() -> (templates: Vec<Template>)
        ensures
            templates@ == catalog_templates(),
    {
        let mut templates: Vec<Template> = Vec::new();
        templates.push(Template::OneStopMediumHard);
        templates.push(Template::OneStopHardMedium);
        templates.push(Template::OneStopHardHard);
        templates.push(Template::TwoStopMediumHardHard);
        templates.push(Template::TwoStopHardMediumMedium);
        templates
    }

    /// Puts outcomes in ascending order of predicted time loss; outcomes of equal loss
    /// keep their order.
    pub fn rank(outcomes: &Vec<StrategyOutcome>) -> (ranked: Vec<StrategyOutcome>)
        ensures
            is_stable_sort_of(ranked@, outcomes@, loss_key()),
    {
        let mut ranked: Vec<StrategyOutcome> = Vec::new();
        let n = outcomes.len();
        let mut i: usize = 0;
        proof {
            reveal(Seq::filter);
            assert(outcomes@.take(0) == Seq::<StrategyOutcome>::empty());
        }
        while i < n
            invariant
                n == outcomes.len(),
                0 <= i <= n,
                is_stable_sort_of(ranked@, outcomes@.take(i as int), loss_key()),
            decreases n - i,
        {
            insert_by_loss(&mut ranked, outcomes[i], Ghost(outcomes@.take(i as int)));
            assert(outcomes@.take(i as int).push(outcomes@[i as int]) == outcomes@.take(i + 1));
            i += 1;
        }
        assert(outcomes@.take(n as int) == outcomes@);
        ranked
    }

    /// Simulates the catalog: works out each plan from the two average stint lengths,
    /// rounded to whole laps, drops the plans that are not accepted, and scores the
    /// others. The outcomes come in catalog order, or ranked by predicted time loss where
    /// `config` asks for it.
    pub fn simulate(
        model: &DegradationModel,
        avg_med: &Mean,
        avg_hard: &Mean,
        config: &SimulationConfig,
    ) -> (outcomes: Vec<StrategyOutcome>)
        ensures
            is_simulation_of(
                outcomes@,
                *model,
                avg_med.rounded_laps(),
                avg_hard.rounded_laps(),
                *config,
            ),
            config.order == OutputOrder::AsGenerated ==> outcomes@ == simulated(
                *model,
                avg_med.rounded_laps(),
                avg_hard.rounded_laps(),
                *config,
            ),
            config.order == OutputOrder::ByScore ==> is_stable_sort_of(
                outcomes@,
                simulated(*model, avg_med.rounded_laps(), avg_hard.rounded_laps(), *config),
                loss_key(),
            ),
    {
        let medium = avg_med.rounded();
        let hard = avg_hard.rounded();
        let templates = Self::catalog();
        let ghost pass = viable(medium as int, hard as int, config.total_laps as int);
        let ghost value = scored(medium as int, hard as int, *model, *config);
        let mut outcomes: Vec<StrategyOutcome> = Vec::new();
        let n = templates.len();
        let mut i: usize = 0;
        proof {
            reveal(Seq::filter);
            assert(templates@.take(0).filter(pass).len() == 0);
        }
        while i < n
            invariant
                n == templates.len(),
                0 <= i <= n,
                templates@ == catalog_templates(),
                medium == avg_med.rounded_laps(),
                hard == avg_hard.rounded_laps(),
                pass == viable(medium as int, hard as int, config.total_laps as int),
                value == scored(medium as int, hard as int, *model, *config),
                outcomes@ == templates@.take(i as int).filter(pass).map_values(value),
            decreases n - i,
        {
            let c = Self::candidate(templates[i], medium, hard, config.total_laps);
            proof {
                lemma_filter_take_step(templates@, pass, i as int);
            }
            if c.is_accepted(config.total_laps) {
                let outcome = c.score(model, config);
                outcomes.push(outcome);
                assert(templates@.take(i as int).filter(pass).push(templates@[i as int]).map_values(
                    value,
                ) == templates@.take(i as int).filter(pass).map_values(value).push(outcome));
            }
            i += 1;
        }
        assert(templates@.take(n as int) == templates@);
        match config.order {
            OutputOrder::AsGenerated => outcomes,
            OutputOrder::ByScore => Self::rank(&outcomes),
        }
    }
}

} // verus!
