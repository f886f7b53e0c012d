//! What a player builds in a turn.
use crate::campaign_production::{
    plan_campaign_with_expansion_denial_reserve, planned_with_reserve, IslandCampaignShortfall,
    ProduceUnitCommand,
};
use crate::damage::DamageChart;
use crate::emergency::{
    decide_emergency, emergency_choice, emergency_step,
    select_emergency_anti_air_candidate_with_existing, AirResponse, DelayedResponse,
    EmergencyStep,
};
use crate::grid::{GridPosition, Terrain};
use crate::master_data::MasterDataRegistry;
use crate::production_choice::{
    candidates_of, chosen, options, options_at, select_best_production_candidate, OptionWeight,
    ProductionCandidate,
};
use crate::production_set::{
    best_production_set, best_set, facilities_apart, is_best_selection, is_selection,
    law_best_set_leaves_nothing,
    lemma_best_set_of_all, lemma_prefix_costs_less, lemma_prefix_is_selection, ranked, total_cost,
    total_score,
};
use crate::production_survey::SiteSurvey;
use crate::travel::TravelTable;
use crate::unit_score::{GamePhase, ProductionDemands, ScoreScene};
use crate::units::{PlayerId, UnitStats, UnitType};
use vstd::prelude::*;

verus! {

/// A unit against aircraft that the player saves for.
#[derive(Clone, Copy, Debug, PartialEq, Eq, Structural)]
pub struct EmergencyAntiAirReservation {
    pub unit_type: UnitType,
    pub cost: u32,
}

/// What a player saves for from turn to turn.
#[derive(Clone, Debug)]
pub struct ProductionPlan {
    /// The price that the player saves for.
    pub reserves: u32,
    /// What the player has saved for, in order.
    pub reservations: Vec<UnitType>,
    pub emergency_anti_air_reservation: Option<EmergencyAntiAirReservation>,
}

/// The plain contents of a plan.
pub struct PlanModel {
    pub reserves: u32,
    pub reservations: Seq<UnitType>,
    pub emergency: Option<EmergencyAntiAirReservation>,
}

impl View for ProductionPlan {
    type V = PlanModel;

    open spec fn view(&self) -> PlanModel {
        PlanModel {
            reserves: self.reserves,
            reservations: self.reservations@,
            emergency: self.emergency_anti_air_reservation,
        }
    }
}

impl Default for ProductionPlan {
    fn default() -> (r: ProductionPlan)
        ensures
            r.reserves == 0,
            r.reservations@.len() == 0,
            r.emergency_anti_air_reservation is None,
    {
        ProductionPlan {
            reserves: 0,
            reservations: Vec::new(),
            emergency_anti_air_reservation: None,
        }
    }
}

/// How far the orders of the island campaigns have come this turn.
#[derive(Clone, Copy, Debug, PartialEq, Eq, Structural)]
pub enum CampaignProgress {
    /// They are not planned yet.
    Unplanned,
    /// They are planned.
    Planned {
        /// The next order, if any is left.
        next: Option<ProduceUnitCommand>,
        /// Nothing else may be built this turn.
        blocks_generic: bool,
        /// What may be spent on anything else.
        generic_budget: Option<u32>,
    },
}

/// All that the decision of a turn looks at.
pub struct ProductionTurn<'a> {
    pub player_id: PlayerId,
    pub is_v3: bool,
    pub phase: GamePhase,
    /// The threat from the air cannot wait.
    pub air_emergency: bool,
    pub current_funds: u32,
    /// How many units the player has on the board.
    pub unit_count: usize,
    pub sites: &'a SiteSurvey,
    pub types: &'a Vec<(UnitType, UnitStats)>,
    pub enemies: &'a Vec<UnitStats>,
    pub shortfalls: &'a Vec<IslandCampaignShortfall>,
    pub registry: &'a MasterDataRegistry,
    pub chart: &'a DamageChart,
    pub travel: &'a TravelTable,
    pub responses: &'a Vec<AirResponse>,
    pub delayed: &'a Vec<DelayedResponse>,
    /// What the player could save for, scored.
    pub savings: &'a Vec<ProductionCandidate>,
    pub campaign: CampaignProgress,
}

/// What a turn comes to.
#[derive(Clone, Debug)]
pub enum ProductionDecision {
    /// These orders, and nothing else now.
    Orders(Vec<ProduceUnitCommand>),
    /// The campaigns have these orders, to be given one at a time, and leave this much for
    /// anything else.
    PlanCampaign { commands: Vec<ProduceUnitCommand>, generic_budget: u32 },
    /// Whatever is worth most is built for the money.
    BuildGeneric { funds: u32 },
}

/// The plain contents of a decision.
pub enum DecisionModel {
    Orders(Seq<ProduceUnitCommand>),
    PlanCampaign(Seq<ProduceUnitCommand>, u32),
    BuildGeneric(u32),
}

impl View for ProductionDecision {
    type V = DecisionModel;

    open spec fn view(&self) -> DecisionModel {
        match self {
            ProductionDecision::Orders(commands) => DecisionModel::Orders(commands@),
            ProductionDecision::PlanCampaign { commands, generic_budget } =>
                DecisionModel::PlanCampaign(commands@, *generic_budget),
            ProductionDecision::BuildGeneric { funds } => DecisionModel::BuildGeneric(*funds),
        }
    }
}

/// Island campaigns lack something, and the rule set heeds them.
pub open spec fn campaigning(turn: ProductionTurn) -> bool {
    turn.is_v3 && turn.shortfalls.len() > 0
}

/// The plan once the emergency is dealt with, and what the player saves for is looked at again.
/// In defence, and while campaigns reserve their own money, nothing is saved. Otherwise the
/// player saves for what would be worth most: more where it costs more than there is and than was
/// saved for, and no longer where it can be paid for and the money is there.
pub open spec fn saving_plan(turn: ProductionTurn, plan: PlanModel) -> PlanModel {
    if turn.phase == GamePhase::Defense || campaigning(turn) {
        PlanModel { reserves: 0, emergency: None, ..plan }
    } else {
        match chosen(*turn.registry, turn.savings@) {
            Some(c) => if c.cost > turn.current_funds && c.cost > plan.reserves {
                PlanModel {
                    reserves: c.cost,
                    reservations: plan.reservations.push(c.unit_type),
                    emergency: None,
                }
            } else if c.cost <= turn.current_funds && plan.reserves > 0 && turn.current_funds
                >= plan.reserves {
                PlanModel { reserves: 0, emergency: None, ..plan }
            } else {
                PlanModel { emergency: None, ..plan }
            },
            None => PlanModel { emergency: None, ..plan },
        }
    }
}

/// What may be spent this turn: everything in defence and while there are few units, otherwise
/// what is left when half of the price saved for and a buffer are set aside, but enough for
/// infantry.
pub open spec fn turn_budget(phase: GamePhase, funds: u32, reserves: u32, unit_count: nat) -> u32 {
    let cut = if reserves > 0 {
        (reserves / 2 + 1000) as u32
    } else {
        0
    };
    let budget = funds.saturating_sub(cut);
    if phase == GamePhase::Defense || unit_count < 5 {
        funds
    } else if budget >= 1000 {
        budget
    } else if funds >= 1000 {
        1000
    } else {
        funds
    }
}

/// What may be spent this turn.
pub fn execution_budget(phase: GamePhase, funds: u32, reserves: u32, unit_count: usize) -> (r: u32)
    ensures
        r == turn_budget(phase, funds, reserves, unit_count as nat),
{
    if phase == GamePhase::Defense || unit_count < 5 {
        return funds;
    }
    let cut: u32 = if reserves > 0 {
        reserves / 2 + 1000
    } else {
        0
    };
    let budget: u32 = funds.saturating_sub(cut);
    if budget >= 1000 {
        budget
    } else if funds >= 1000 {
        1000
    } else {
        funds
    }
}

/// The order to build the type at the place.
pub open spec fn order_at(player: PlayerId, position: GridPosition, unit_type: UnitType) -> ProduceUnitCommand {
    ProduceUnitCommand {
        player_id: player,
        target_x: position.x,
        target_y: position.y,
        unit_type,
    }
}

/// What a turn comes to once the campaigns are planned: their next order, or nothing where they
/// keep all the money, or whatever else is worth most.
pub open spec fn after_campaign(
    next: Option<ProduceUnitCommand>,
    blocks_generic: bool,
    generic_budget: u32,
) -> DecisionModel {
    match next {
        Some(command) => DecisionModel::Orders(seq![command]),
        None => if blocks_generic {
            DecisionModel::Orders(Seq::empty())
        } else {
            DecisionModel::BuildGeneric(generic_budget)
        },
    }
}

/// Goes on once the campaigns are planned.
pub fn continue_after_campaign(
    next: Option<ProduceUnitCommand>,
    blocks_generic: bool,
    generic_budget: u32,
) -> (r: ProductionDecision)
    ensures
        r@ == after_campaign(next, blocks_generic, generic_budget),
{
    match next {
        Some(command) => {
            let mut commands: Vec<ProduceUnitCommand> = Vec::new();
            commands.push(command);
            assert(commands@ =~= seq![command]);
            ProductionDecision::Orders(commands)
        },
        None => if blocks_generic {
            ProductionDecision::Orders(Vec::new())
        } else {
            ProductionDecision::BuildGeneric { funds: generic_budget }
        },
    }
}

/// What becomes of the emergency this turn.
pub open spec fn turn_emergency(turn: ProductionTurn) -> EmergencyStep {
    let choice = if turn.is_v3 && turn.air_emergency {
        emergency_choice(
            *turn.registry,
            turn.responses@,
            turn.sites.facilities@,
            turn.types@,
            turn.current_funds,
        )
    } else {
        None
    };
    emergency_step(choice, turn.delayed@, turn.current_funds, turn.sites.income_per_turn)
}

/// What a turn comes to, and the plan after it.
pub open spec fn turn_decision(turn: ProductionTurn, plan: PlanModel) -> (DecisionModel, PlanModel) {
    if turn.sites.facilities.len() == 0 {
        (DecisionModel::Orders(Seq::empty()), plan)
    } else {
        match turn_emergency(turn) {
            EmergencyStep::Build(c) => (
                DecisionModel::Orders(
                    seq![order_at(turn.player_id, c.facility_position, c.unit_type)],
                ),
                PlanModel { emergency: None, ..plan },
            ),
            EmergencyStep::Save(c) => (
                DecisionModel::Orders(Seq::empty()),
                PlanModel {
                    emergency: Some(
                        EmergencyAntiAirReservation { unit_type: c.unit_type, cost: c.cost },
                    ),
                    ..plan
                },
            ),
            EmergencyStep::Pass => {
                let next = saving_plan(turn, plan);
                let budget = turn_budget(
                    turn.phase,
                    turn.current_funds,
                    next.reserves,
                    turn.unit_count as nat,
                );
                let decision = if !campaigning(turn) {
                    DecisionModel::BuildGeneric(budget)
                } else {
                    match turn.campaign {
                        CampaignProgress::Planned { next, blocks_generic, generic_budget } =>
                            after_campaign(
                            next,
                            blocks_generic,
                            match generic_budget {
                                Some(funds) => funds,
                                None => 0,
                            },
                        ),
                        CampaignProgress::Unplanned => {
                            let (end, generic_funds) = planned_with_reserve(
                                turn.player_id,
                                turn.shortfalls@,
                                turn.sites.facilities@,
                                turn.sites.owned_airport_count,
                                turn.types@,
                                turn.enemies@,
                                *turn.chart,
                                *turn.travel,
                                *turn.registry,
                                budget,
                            );
                            DecisionModel::PlanCampaign(end.commands, generic_funds)
                        },
                    }
                };
                (decision, next)
            },
        }
    }
}

fn update_savings(turn: &ProductionTurn, plan: &mut ProductionPlan)
    ensures
        final(plan)@ == saving_plan(*turn, old(plan)@),
{
    plan.emergency_anti_air_reservation = None;
    if turn.phase == GamePhase::Defense || (turn.is_v3 && turn.shortfalls.len() > 0) {
        plan.reserves = 0;
        return ;
    }
    if let Some(c) = select_best_production_candidate(turn.registry, turn.savings) {
        if c.cost > turn.current_funds && c.cost > plan.reserves {
            plan.reserves = c.cost;
            plan.reservations.push(c.unit_type);
        } else if c.cost <= turn.current_funds && plan.reserves > 0 && turn.current_funds
            >= plan.reserves {
            plan.reserves = 0;
        }
    }
}

/// Decides what the player builds this turn: against aircraft in an emergency, for the island
/// campaigns, or whatever is worth most.
pub fn decide_production(turn: &ProductionTurn, plan: &mut ProductionPlan) -> (r: ProductionDecision)
    ensures
        (r@, final(plan)@) == turn_decision(*turn, old(plan)@),
{
    if turn.sites.facilities.len() == 0 {
        return ProductionDecision::Orders(Vec::new());
    }
    let choice = if turn.is_v3 && turn.air_emergency {
        select_emergency_anti_air_candidate_with_existing(
            &turn.sites.facilities,
            turn.types,
            turn.responses,
            turn.registry,
            turn.current_funds,
        )
    } else {
        None
    };
    match decide_emergency(
        choice,
        turn.delayed,
        turn.current_funds,
        turn.sites.income_per_turn,
    ) {
        EmergencyStep::Build(c) => {
            plan.emergency_anti_air_reservation = None;
            let mut commands: Vec<ProduceUnitCommand> = Vec::new();
            commands.push(
                ProduceUnitCommand {
                    player_id: turn.player_id,
                    target_x: c.facility_position.x,
                    target_y: c.facility_position.y,
                    unit_type: c.unit_type,
                },
            );
            assert(commands@ =~= seq![
                order_at(turn.player_id, c.facility_position, c.unit_type),
            ]);
            return ProductionDecision::Orders(commands);
        },
        EmergencyStep::Save(c) => {
            plan.emergency_anti_air_reservation = Some(
                EmergencyAntiAirReservation { unit_type: c.unit_type, cost: c.cost },
            );
            return ProductionDecision::Orders(Vec::new());
        },
        EmergencyStep::Pass => {},
    }
    update_savings(turn, plan);
    let budget: u32 = execution_budget(
        turn.phase,
        turn.current_funds,
        plan.reserves,
        turn.unit_count,
    );
    if !(turn.is_v3 && turn.shortfalls.len() > 0) {
        return ProductionDecision::BuildGeneric { funds: budget };
    }
    match turn.campaign {
        CampaignProgress::Planned { next, blocks_generic, generic_budget } => {
            let funds: u32 = match generic_budget {
                Some(funds) => funds,
                None => 0,
            };
            continue_after_campaign(next, blocks_generic, funds)
        },
        CampaignProgress::Unplanned => {
            let outcome = plan_campaign_with_expansion_denial_reserve(
                turn.player_id,
                turn.shortfalls,
                &turn.sites.facilities,
                turn.sites.owned_airport_count,
                turn.types,
                turn.enemies,
                turn.chart,
                turn.travel,
                turn.registry,
                budget,
            );
            ProductionDecision::PlanCampaign {
                commands: outcome.commands,
                generic_budget: outcome.generic_funds,
            }
        },
    }
}

/// What is lacking once such a unit is ordered. Under the third rule set only what crosses the
/// sea counts, by the room it has there; otherwise all cargo room counts.
pub open spec fn demands_after(
    demands: ProductionDemands,
    unit_type: UnitType,
    max_cargo: u32,
    sea_slots: (u32, u32),
    is_v3: bool,
) -> ProductionDemands {
    let heavy = unit_type == UnitType::Lander && demands.heavy_transport > 0;
    let (light_slots, heavy_slots) = if is_v3 {
        sea_slots
    } else {
        (max_cargo, max_cargo)
    };
    if is_v3 && unit_type != UnitType::TransportHelicopter && unit_type != UnitType::Lander {
        demands
    } else if heavy {
        ProductionDemands {
            heavy_transport: demands.heavy_transport.saturating_sub(heavy_slots),
            ..demands
        }
    } else {
        ProductionDemands {
            light_transport: demands.light_transport.saturating_sub(light_slots),
            ..demands
        }
    }
}

/// Takes an ordered transport off what is lacking.
pub fn consume_transport_demand_after_production(
    demands: &mut ProductionDemands,
    unit_type: UnitType,
    max_cargo: u32,
    sea_slots: (u32, u32),
    is_v3: bool,
)
    ensures
        *final(demands) == demands_after(*old(demands), unit_type, max_cargo, sea_slots, is_v3),
{
    if is_v3 && unit_type != UnitType::TransportHelicopter && unit_type != UnitType::Lander {
        return ;
    }
    let light_slots: u32 = if is_v3 {
        sea_slots.0
    } else {
        max_cargo
    };
    let heavy_slots: u32 = if is_v3 {
        sea_slots.1
    } else {
        max_cargo
    };
    if unit_type == UnitType::Lander && demands.heavy_transport > 0 {
        demands.heavy_transport = demands.heavy_transport.saturating_sub(heavy_slots);
    } else {
        demands.light_transport = demands.light_transport.saturating_sub(light_slots);
    }
}

/// The state of building whatever is worth most.
#[derive(Clone, Debug)]
pub struct GenericProduction {
    pub player_id: PlayerId,
    pub is_v3: bool,
    /// The money to begin with.
    pub funds: u32,
    pub remaining_funds: u32,
    /// What each order costs.
    pub costs: Vec<u32>,
    pub used_facilities: Vec<GridPosition>,
    pub demands: ProductionDemands,
    pub commands: Vec<ProduceUnitCommand>,
}

/// The plain contents of the state.
pub struct GenericModel {
    pub player_id: PlayerId,
    pub is_v3: bool,
    pub funds: u32,
    pub remaining_funds: u32,
    pub costs: Seq<u32>,
    pub used: Seq<GridPosition>,
    pub demands: ProductionDemands,
    pub commands: Seq<ProduceUnitCommand>,
}

impl View for GenericProduction {
    type V = GenericModel;

    open spec fn view(&self) -> GenericModel {
        GenericModel {
            player_id: self.player_id,
            is_v3: self.is_v3,
            funds: self.funds,
            remaining_funds: self.remaining_funds,
            costs: self.costs@,
            used: self.used_facilities@,
            demands: self.demands,
            commands: self.commands@,
        }
    }
}

/// The state after the candidate was ordered.
pub open spec fn generic_after(
    state: GenericModel,
    c: ProductionCandidate,
    sea_slots: (u32, u32),
) -> GenericModel {
    let demands = demands_after(
        state.demands,
        c.unit_type,
        c.max_cargo,
        sea_slots,
        state.is_v3,
    );
    GenericModel {
        remaining_funds: state.remaining_funds.saturating_sub(c.cost),
        costs: state.costs.push(c.cost),
        used: state.used.push(c.facility_position),
        demands: if c.can_capture {
            ProductionDemands { capture: demands.capture.saturating_sub(1), ..demands }
        } else {
            demands
        },
        commands: state.commands.push(
            order_at(state.player_id, c.facility_position, c.unit_type),
        ),
        ..state
    }
}

/// The sum of the first `n` costs.
pub open spec fn cost_sum(costs: Seq<u32>, n: int) -> int
    decreases n,
{
    if n <= 0 {
        0
    } else {
        cost_sum(costs, n - 1) + costs[n - 1]
    }
}

/// What holds throughout: every order has a facility of its own and stands for it, and the orders
/// and what is left add up to the money to begin with.
pub open spec fn is_sound(state: GenericModel) -> bool {
    &&& state.used.len() == state.commands.len()
    &&& state.costs.len() == state.commands.len()
    &&& forall|i: int, j: int|
        0 <= i < j < state.used.len() ==> #[trigger] state.used[i] != #[trigger] state.used[j]
    &&& forall|i: int|
        0 <= i < state.commands.len() ==> {
            &&& (#[trigger] state.commands[i]).player_id == state.player_id
            &&& state.commands[i].target_x == state.used[i].x
            &&& state.commands[i].target_y == state.used[i].y
        }
    &&& cost_sum(state.costs, state.costs.len() as int) + state.remaining_funds == state.funds
}

/// The state after the first `n` of the chosen candidates were ordered.
pub open spec fn generic_after_all(
    state: GenericModel,
    candidates: Seq<ProductionCandidate>,
    weights: Seq<OptionWeight>,
    chosen: Seq<usize>,
    n: int,
) -> GenericModel
    decreases n,
{
    if n <= 0 {
        state
    } else {
        let k = chosen[n - 1] as int;
        generic_after(
            generic_after_all(state, candidates, weights, chosen, n - 1),
            candidates[k],
            weights[k].sea_slots,
        )
    }
}

/// Which candidates are ordered: the set that is worth most for the money that is left. By the
/// third version of the tactics an order changes what the rest is worth, so only the first of the
/// set is ordered, and the rest is weighed anew.
pub open spec fn ordered(
    registry: MasterDataRegistry,
    state: GenericModel,
    candidates: Seq<ProductionCandidate>,
) -> Seq<usize> {
    let set = best_set(
        candidates,
        ranked(registry, candidates),
        state.remaining_funds as int,
    );
    if state.is_v3 && set.len() > 1 {
        set.take(1)
    } else {
        set
    }
}

impl GenericProduction {
    /// Starts with the money. Where campaigns see to it themselves, nothing is lacking.
    pub fn new(
        player_id: PlayerId,
        is_v3: bool,
        campaigning: bool,
        demands: ProductionDemands,
        funds: u32,
    ) -> (r: GenericProduction)
        ensures
            r@ == (GenericModel {
                player_id,
                is_v3,
                funds,
                remaining_funds: funds,
                costs: Seq::empty(),
                used: Seq::empty(),
                demands: if is_v3 && campaigning {
                    ProductionDemands { capture: 0, light_transport: 0, heavy_transport: 0 }
                } else {
                    demands
                },
                commands: Seq::empty(),
            }),
            is_sound(r@),
    {
        let costs: Vec<u32> = Vec::new();
        assert(costs@ =~= Seq::<u32>::empty());
        let used_facilities: Vec<GridPosition> = Vec::new();
        let commands: Vec<ProduceUnitCommand> = Vec::new();
        assert(used_facilities@ =~= Seq::<GridPosition>::empty());
        assert(commands@ =~= Seq::<ProduceUnitCommand>::empty());
        GenericProduction {
            player_id,
            is_v3,
            funds,
            remaining_funds: funds,
            costs,
            used_facilities,
            demands: if is_v3 && campaigning {
                ProductionDemands { capture: 0, light_transport: 0, heavy_transport: 0 }
            } else {
                demands
            },
            commands,
        }
    }

    /// Orders the set of candidates that is worth most for the money, or the first of it where an
    /// order changes what the rest is worth. Gives what was ordered: nothing exactly if no
    /// candidate that is worth anything can be paid for.
    pub fn order_best(
        &mut self,
        registry: &MasterDataRegistry,
        candidates: &Vec<ProductionCandidate>,
        weights: &Vec<OptionWeight>,
    ) -> (r: Vec<ProductionCandidate>)
        requires
            weights.len() == candidates.len(),
        ensures
            ({
                let chosen = ordered(*registry, old(self)@, candidates@);
                &&& final(self)@ == generic_after_all(
                    old(self)@,
                    candidates@,
                    weights@,
                    chosen,
                    chosen.len() as int,
                )
                &&& r@ == Seq::new(chosen.len(), |i: int| candidates@[chosen[i] as int])
            }),
            r.len() == 0 <==> forall|i: int|
                0 <= i < candidates.len() && (#[trigger] candidates[i]).score > 0
                    ==> candidates[i].cost > old(self).remaining_funds,
    {
        let ghost start = self@;
        let ghost all = candidates@;
        let set = best_production_set(registry, candidates, self.remaining_funds);
        let count: usize = if self.is_v3 && set.len() > 1 {
            1
        } else {
            set.len()
        };
        let ghost chosen = ordered(*registry, start, all);
        proof {
            assert(chosen =~= set@.take(count as int));
            lemma_empty_set(*registry, all, start.remaining_funds);
        }
        let mut r: Vec<ProductionCandidate> = Vec::new();
        let mut n: usize = 0;
        while n < count
            invariant
                n <= count <= set.len(),
                all == candidates@,
                weights.len() == candidates.len(),
                chosen == set@.take(count as int),
                forall|i: int| 0 <= i < set.len() ==> (#[trigger] set[i]) < candidates.len(),
                self@ == generic_after_all(start, all, weights@, chosen, n as int),
                self.is_v3 == start.is_v3,
                self.player_id == start.player_id,
                r@ == Seq::new(n as nat, |i: int| all[chosen[i] as int]),
            decreases count - n,
        {
            let k: usize = set[n];
            let c = candidates[k];
            assert(chosen[n as int] == k);
            self.commands.push(
                ProduceUnitCommand {
                    player_id: self.player_id,
                    target_x: c.facility_position.x,
                    target_y: c.facility_position.y,
                    unit_type: c.unit_type,
                },
            );
            self.remaining_funds = self.remaining_funds.saturating_sub(c.cost);
            self.costs.push(c.cost);
            self.used_facilities.push(c.facility_position);
            consume_transport_demand_after_production(
                &mut self.demands,
                c.unit_type,
                c.max_cargo,
                weights[k].sea_slots,
                self.is_v3,
            );
            if c.can_capture {
                self.demands.capture = self.demands.capture.saturating_sub(1);
            }
            r.push(c);
            assert(r@ =~= Seq::new((n + 1) as nat, |i: int| all[chosen[i] as int]));
            n += 1;
        }
        r
    }
}

/// A best set is empty exactly if nothing that is worth anything can be paid for.
proof fn lemma_empty_set(
    registry: MasterDataRegistry,
    candidates: Seq<ProductionCandidate>,
    budget: u32,
)
    requires
        candidates.len() <= usize::MAX,
    ensures
        best_set(candidates, ranked(registry, candidates), budget as int).len() == 0 <==> forall|
            i: int,
        |
            0 <= i < candidates.len() && (#[trigger] candidates[i]).score > 0 ==> candidates[i].cost
                > budget,
{
    let set = best_set(candidates, ranked(registry, candidates), budget as int);
    lemma_best_set_of_all(registry, candidates, budget);
    if set.len() == 0 {
        assert forall|i: int|
            0 <= i < candidates.len() && (#[trigger] candidates[i]).score
                > 0 implies candidates[i].cost > budget by {
            law_best_set_leaves_nothing(candidates, set, budget, i as usize);
        }
    } else {
        lemma_prefix_costs_less(candidates, set, 1);
        assert(set.take(1).drop_last() =~= Seq::<usize>::empty());
        assert(set.take(1).last() == set[0]);
        reveal_with_fuel(total_cost, 2);
        assert(candidates[set[0] as int].score > 0);
    }
}

/// No budget exceeds the money there is, and where nothing is saved for, or there are few units,
/// or the player defends, all of the money may be spent.
pub proof fn law_budget_within_funds(
    phase: GamePhase,
    funds: u32,
    reserves: u32,
    unit_count: nat,
)
    ensures
        turn_budget(phase, funds, reserves, unit_count) <= funds,
        reserves == 0 || phase == GamePhase::Defense || unit_count < 5 ==> turn_budget(
            phase,
            funds,
            reserves,
            unit_count,
        ) == funds,
{
}

/// An emergency comes first: what is built against it can be paid for, and while the player saves
/// for it nothing else is built.
pub proof fn law_emergency_comes_first(turn: ProductionTurn, plan: PlanModel)
    requires
        turn.sites.facilities.len() > 0,
    ensures
        match turn_emergency(turn) {
            EmergencyStep::Build(c) => c.cost <= turn.current_funds && turn_decision(turn, plan).0
                == DecisionModel::Orders(
                seq![order_at(turn.player_id, c.facility_position, c.unit_type)],
            ),
            EmergencyStep::Save(c) => c.cost > turn.current_funds && turn_decision(turn, plan).0
                == DecisionModel::Orders(Seq::empty()),
            EmergencyStep::Pass => true,
        },
{
}

proof fn lemma_options_at(
    registry: MasterDataRegistry,
    facilities: Seq<(GridPosition, Terrain)>,
    types: Seq<(UnitType, UnitStats)>,
    funds: u32,
    f: int,
    m: int,
)
    requires
        0 <= m <= types.len() <= usize::MAX,
        0 <= f < facilities.len() <= usize::MAX,
    ensures
        forall|i: int|
            0 <= i < options_at(registry, facilities, types, funds, f, m).len() ==> {
                let pair = #[trigger] options_at(registry, facilities, types, funds, f, m)[i];
                pair.0 == f && pair.1 < m && types[pair.1 as int].1.cost <= funds
            },
    decreases m,
{
    if m > 0 {
        lemma_options_at(registry, facilities, types, funds, f, m - 1);
        let rest = options_at(registry, facilities, types, funds, f, m - 1);
        let all = options_at(registry, facilities, types, funds, f, m);
        assert forall|i: int| 0 <= i < all.len() implies {
            let pair = #[trigger] all[i];
            pair.0 == f && pair.1 < m && types[pair.1 as int].1.cost <= funds
        } by {
            if i < rest.len() {
                assert(all[i] == rest[i]);
            }
        }
    }
}

proof fn lemma_options(
    registry: MasterDataRegistry,
    facilities: Seq<(GridPosition, Terrain)>,
    types: Seq<(UnitType, UnitStats)>,
    used: Seq<GridPosition>,
    funds: u32,
    n: int,
)
    requires
        0 <= n <= facilities.len() <= usize::MAX,
        types.len() <= usize::MAX,
    ensures
        forall|i: int|
            0 <= i < options(registry, facilities, types, used, funds, n).len() ==> {
                let pair = #[trigger] options(registry, facilities, types, used, funds, n)[i];
                pair.0 < n && pair.1 < types.len() && !used.contains(facilities[pair.0 as int].0)
                    && types[pair.1 as int].1.cost <= funds
            },
    decreases n,
{
    if n > 0 {
        lemma_options(registry, facilities, types, used, funds, n - 1);
        let m = types.len() as int;
        lemma_options_at(registry, facilities, types, funds, n - 1, m);
        let rest = options(registry, facilities, types, used, funds, n - 1);
        let more = options_at(registry, facilities, types, funds, n - 1, m);
        let all = options(registry, facilities, types, used, funds, n);
        assert forall|i: int| 0 <= i < all.len() implies {
            let pair = #[trigger] all[i];
            pair.0 < n && pair.1 < types.len() && !used.contains(facilities[pair.0 as int].0)
                && types[pair.1 as int].1.cost <= funds
        } by {
            if i < rest.len() {
                assert(all[i] == rest[i]);
            } else {
                assert(all[i] == more[i - rest.len()]);
            }
        }
    }
}

proof fn lemma_sound_after(
    state: GenericModel,
    candidates: Seq<ProductionCandidate>,
    weights: Seq<OptionWeight>,
    chosen: Seq<usize>,
    n: int,
)
    requires
        is_sound(state),
        0 <= n <= chosen.len(),
        facilities_apart(candidates, chosen),
        total_cost(candidates, chosen) <= state.remaining_funds,
        forall|i: int|
            0 <= i < chosen.len() ==> !state.used.contains(
                candidates[(#[trigger] chosen[i]) as int].facility_position,
            ),
    ensures
        ({
            let next = generic_after_all(state, candidates, weights, chosen, n);
            &&& is_sound(next)
            &&& next.player_id == state.player_id
            &&& next.funds == state.funds
            &&& next.used.len() == state.used.len() + n
            &&& forall|i: int| 0 <= i < state.used.len() ==> #[trigger] next.used[i] == state.used[i]
            &&& forall|i: int|
                0 <= i < n ==> #[trigger] next.used[state.used.len() + i]
                    == candidates[chosen[i] as int].facility_position
            &&& next.remaining_funds + total_cost(candidates, chosen.take(n))
                == state.remaining_funds
        }),
    decreases n,
{
    if n <= 0 {
        assert(chosen.take(0) =~= Seq::<usize>::empty());
    } else {
        lemma_sound_after(state, candidates, weights, chosen, n - 1);
        let before = generic_after_all(state, candidates, weights, chosen, n - 1);
        let next = generic_after_all(state, candidates, weights, chosen, n);
        let c = candidates[chosen[n - 1] as int];
        assert(chosen.take(n).drop_last() =~= chosen.take(n - 1));
        lemma_prefix_costs_less(candidates, chosen, n);
        assert forall|i: int| 0 <= i < before.used.len() implies #[trigger] before.used[i]
            != c.facility_position by {
            if i < state.used.len() {
                assert(state.used.contains(state.used[i]));
            } else {
                let k = i - state.used.len();
                assert(before.used[state.used.len() + k]
                    == candidates[chosen[k] as int].facility_position);
                assert(candidates[chosen[k] as int].facility_position
                    != candidates[chosen[n - 1] as int].facility_position);
            }
        }
        lemma_cost_sum_prefix(before.costs, c.cost, before.costs.len() as int);
        assert(next.costs == before.costs.push(c.cost));
        assert(is_sound(next));
    }
}

proof fn lemma_cost_sum_prefix(costs: Seq<u32>, more: u32, n: int)
    requires
        0 <= n <= costs.len(),
    ensures
        cost_sum(costs.push(more), n) == cost_sum(costs, n),
    decreases n,
{
    if n > 0 {
        lemma_cost_sum_prefix(costs, more, n - 1);
    }
}

/// The whole of the generic production adds up: whatever is ordered of the options that there are
/// takes facilities that were not used before, each order stands for its facility, and what the
/// orders cost and what is left make up the money to begin with. What is ordered at once is a set
/// that no other set of options beats; by the third version of the tactics it is the first of such
/// a set, so that something is ordered unless nothing is worth anything.
pub proof fn law_generic_turn_adds_up(
    scene: ScoreScene,
    facilities: Seq<(GridPosition, Terrain)>,
    types: Seq<(UnitType, UnitStats)>,
    weights: Seq<OptionWeight>,
    state: GenericModel,
)
    requires
        facilities.len() <= usize::MAX,
        types.len() <= usize::MAX,
        options(
            *scene.registry,
            facilities,
            types,
            state.used,
            state.remaining_funds,
            facilities.len() as int,
        ).len() <= usize::MAX,
        is_sound(state),
    ensures
        ({
            let list = options(
                *scene.registry,
                facilities,
                types,
                state.used,
                state.remaining_funds,
                facilities.len() as int,
            );
            let candidates = candidates_of(scene, facilities, types, list, weights, state.is_v3);
            let chosen = ordered(*scene.registry, state, candidates);
            let next = generic_after_all(state, candidates, weights, chosen, chosen.len() as int);
            &&& is_sound(next)
            &&& next.funds == state.funds
            &&& next.remaining_funds + total_cost(candidates, chosen) == state.remaining_funds
            &&& is_selection(candidates, chosen, state.remaining_funds)
            &&& !state.is_v3 ==> is_best_selection(candidates, chosen, state.remaining_funds)
            &&& state.is_v3 ==> exists|s: Seq<usize>| #[trigger]
                is_best_selection(candidates, s, state.remaining_funds) && chosen == (if s.len() > 1 {
                    s.take(1)
                } else {
                    s
                })
            &&& forall|i: int|
                0 <= i < chosen.len() ==> candidates[(#[trigger] chosen[i]) as int].score > 0
            &&& chosen.len() == 0 ==> forall|s: Seq<usize>| #[trigger]
                is_selection(candidates, s, state.remaining_funds) ==> total_score(candidates, s) <= 0
        }),
{
    let list = options(
        *scene.registry,
        facilities,
        types,
        state.used,
        state.remaining_funds,
        facilities.len() as int,
    );
    let candidates = candidates_of(scene, facilities, types, list, weights, state.is_v3);
    lemma_options(
        *scene.registry,
        facilities,
        types,
        state.used,
        state.remaining_funds,
        facilities.len() as int,
    );
    lemma_best_set_of_all(*scene.registry, candidates, state.remaining_funds);
    let set = best_set(
        candidates,
        ranked(*scene.registry, candidates),
        state.remaining_funds as int,
    );
    let chosen = ordered(*scene.registry, state, candidates);
    assert(chosen =~= set.take(chosen.len() as int));
    lemma_prefix_is_selection(candidates, set, state.remaining_funds, chosen.len() as int);
    assert forall|i: int| 0 <= i < chosen.len() implies !state.used.contains(
        candidates[(#[trigger] chosen[i]) as int].facility_position,
    ) by {
        let pair = list[chosen[i] as int];
        assert(facilities[pair.0 as int].0 == candidates[chosen[i] as int].facility_position);
    }
    lemma_sound_after(state, candidates, weights, chosen, chosen.len() as int);
    assert(chosen.take(chosen.len() as int) =~= chosen);
    assert(is_best_selection(candidates, set, state.remaining_funds));
}

proof fn lemma_option_listed_at(
    registry: MasterDataRegistry,
    facilities: Seq<(GridPosition, Terrain)>,
    types: Seq<(UnitType, UnitStats)>,
    funds: u32,
    f: int,
    t: int,
    m: int,
)
    requires
        0 <= t < m <= types.len(),
        registry.builds_type(facilities[f].1, types[t].0),
        types[t].1.cost <= funds,
    ensures
        options_at(registry, facilities, types, funds, f, m).contains((f as usize, t as usize)),
    decreases m,
{
    let all = options_at(registry, facilities, types, funds, f, m);
    let rest = options_at(registry, facilities, types, funds, f, m - 1);
    if t < m - 1 {
        lemma_option_listed_at(registry, facilities, types, funds, f, t, m - 1);
        let i = choose|i: int| 0 <= i < rest.len() && rest[i] == (f as usize, t as usize);
        assert(all[i] == rest[i]);
    } else {
        assert(all[rest.len() as int] == (f as usize, t as usize));
    }
}

/// Nothing that can be built is overlooked: every type that a free facility builds and that the
/// money pays for is among the options.
pub proof fn law_no_option_is_overlooked(
    registry: MasterDataRegistry,
    facilities: Seq<(GridPosition, Terrain)>,
    types: Seq<(UnitType, UnitStats)>,
    used: Seq<GridPosition>,
    funds: u32,
    f: int,
    t: int,
    n: int,
)
    requires
        0 <= f < n <= facilities.len(),
        0 <= t < types.len(),
        !used.contains(facilities[f].0),
        registry.builds_type(facilities[f].1, types[t].0),
        types[t].1.cost <= funds,
    ensures
        options(registry, facilities, types, used, funds, n).contains((f as usize, t as usize)),
    decreases n,
{
    let all = options(registry, facilities, types, used, funds, n);
    let rest = options(registry, facilities, types, used, funds, n - 1);
    if f < n - 1 {
        law_no_option_is_overlooked(registry, facilities, types, used, funds, f, t, n - 1);
        let i = choose|i: int| 0 <= i < rest.len() && rest[i] == (f as usize, t as usize);
        assert(all[i] == rest[i]);
    } else {
        let m = types.len() as int;
        let more = options_at(registry, facilities, types, funds, f, m);
        lemma_option_listed_at(registry, facilities, types, funds, f, t, m);
        let i = choose|i: int| 0 <= i < more.len() && more[i] == (f as usize, t as usize);
        assert(all[rest.len() + i] == more[i]);
    }
}

} // verus!
