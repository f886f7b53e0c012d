//! What holds of the decision what to build.
use crate::campaign_production::{planned_with_reserve, ProduceUnitCommand};
use crate::emergency::{emergency_choice, emergency_step, EmergencyStep};
use crate::grid::{GridPosition, Terrain};
use crate::production::{
    demands_after, generic_after, saving_plan, turn_budget, turn_decision, turn_emergency,
    CampaignProgress, DecisionModel, EmergencyAntiAirReservation, GenericModel, PlanModel,
    ProductionTurn,
};
use crate::production_choice::{candidates_of, chosen, OptionWeight, ProductionCandidate};
use crate::unit_score::{unit_score, GamePhase, ProductionDemands, ScoreScene};
use crate::units::{UnitStats, UnitType};
use vstd::prelude::*;

verus! {

/// Campaigns keep their own money: by the third rule set, while one lacks something.
pub open spec fn campaigns_pay(turn: ProductionTurn) -> bool {
    turn.is_v3 && turn.shortfalls@.len() >= 1
}

/// What the player saves for. In defence and while campaigns keep their own money it is nothing.
/// Otherwise the best there is to save for counts: the player saves for it if it costs more than
/// there is and than was saved for, and is done saving if it can be paid for and the money that was
/// saved for is there. In any other case the saving stays as it was.
pub proof fn law_savings_follow_the_best_unit(turn: ProductionTurn, plan: PlanModel)
    ensures
        ({
            let r = saving_plan(turn, plan);
            let best = chosen(*turn.registry, turn.savings@);
            let off = turn.phase == GamePhase::Defense || campaigns_pay(turn);
            let more = !off && best is Some && best->0.cost > turn.current_funds && best->0.cost
                > plan.reserves;
            let done = !off && best is Some && best->0.cost <= turn.current_funds && plan.reserves
                <= turn.current_funds;
            &&& r.emergency is None
            &&& off ==> r.reserves == 0
            &&& more ==> r.reserves == best->0.cost && r.reservations == plan.reservations.push(
                best->0.unit_type,
            )
            &&& done ==> r.reserves == 0
            &&& !off && !more && !done ==> r.reserves == plan.reserves
            &&& !more ==> r.reservations == plan.reservations
        }),
{
}

/// With something to save for, enough units and no need to defend, half of the price and a buffer
/// of a thousand are set aside; a thousand may always be spent, if it is there.
pub proof fn law_budget_sets_half_the_price_aside(
    phase: GamePhase,
    funds: u32,
    reserves: u32,
    unit_count: nat,
)
    requires
        phase != GamePhase::Defense,
        unit_count >= 5,
        reserves > 0,
    ensures
        ({
            let r = turn_budget(phase, funds, reserves, unit_count);
            let aside = reserves / 2 + 1000;
            &&& funds >= aside + 1000 ==> r == funds - aside
            &&& 1000 <= funds < aside + 1000 ==> r == 1000
            &&& funds < 1000 ==> r == funds
        }),
{
}

/// There is an emergency only by the third rule set and while the threat cannot wait.
pub proof fn law_no_threat_no_emergency(turn: ProductionTurn)
    ensures
        !turn.is_v3 || !turn.air_emergency ==> turn_emergency(turn) is Pass,
        turn.is_v3 && turn.air_emergency ==> turn_emergency(turn) == emergency_step(
            emergency_choice(
                *turn.registry,
                turn.responses@,
                turn.sites.facilities@,
                turn.types@,
                turn.current_funds,
            ),
            turn.delayed@,
            turn.current_funds,
            turn.sites.income_per_turn,
        ),
{
}

/// What a turn comes to.
///
/// - Without a free facility nothing is built and the plan stays.
/// - What is built against an emergency is built where the choice stands, and nothing is kept for
///   it any longer. What is saved for it is kept, and nothing else is built.
/// - Otherwise the plan is looked at anew. Where no campaign keeps its own money, the budget goes
///   to whatever is worth most. Where one does and they are not planned yet, they are planned for
///   the budget; where they are, their next order is given, and after the last the rest goes to
///   whatever is worth most, unless nothing else may be built.
#[verifier::rlimit(50)]
pub proof fn law_turn_goes_to_the_most_urgent(turn: ProductionTurn, plan: PlanModel)
    ensures
        ({
            let (decision, next) = turn_decision(turn, plan);
            let idle = DecisionModel::Orders(Seq::empty());
            let saved = saving_plan(turn, plan);
            let budget = turn_budget(
                turn.phase,
                turn.current_funds,
                saved.reserves,
                turn.unit_count as nat,
            );
            let goes_on = turn.sites.facilities.len() > 0 && turn_emergency(turn) is Pass;
            &&& turn.sites.facilities.len() == 0 ==> decision == idle && next == plan
            &&& turn.sites.facilities.len() > 0 ==> match turn_emergency(turn) {
                EmergencyStep::Build(c) => {
                    &&& decision == DecisionModel::Orders(
                        seq![ProduceUnitCommand {
                            player_id: turn.player_id,
                            target_x: c.facility_position.x,
                            target_y: c.facility_position.y,
                            unit_type: c.unit_type,
                        }],
                    )
                    &&& next.emergency is None && next.reserves == plan.reserves
                        && next.reservations == plan.reservations
                },
                EmergencyStep::Save(c) => {
                    &&& decision == idle
                    &&& next.emergency == Some(
                        EmergencyAntiAirReservation { unit_type: c.unit_type, cost: c.cost },
                    )
                    &&& next.reserves == plan.reserves && next.reservations == plan.reservations
                },
                EmergencyStep::Pass => next == saved,
            }
            &&& goes_on && !campaigns_pay(turn) ==> decision == DecisionModel::BuildGeneric(budget)
            &&& goes_on && campaigns_pay(turn) ==> match turn.campaign {
                CampaignProgress::Unplanned => {
                    let (end, left) = planned_with_reserve(
                        turn.player_id,
                        turn.shortfalls@,
                        turn.sites.facilities@,
                        turn.sites.owned_airport_count,
                        turn.types@,
                        turn.enemies@,
                        *turn.chart,
                        *turn.travel,
                        *turn.registry,
                        budget,
                    );
                    decision == DecisionModel::PlanCampaign(end.commands, left)
                },
                CampaignProgress::Planned { next, blocks_generic, generic_budget } => {
                    &&& next is Some ==> decision == DecisionModel::Orders(seq![next->0])
                    &&& next is None && blocks_generic ==> decision == idle
                    &&& next is None && !blocks_generic && generic_budget is Some ==> decision
                        == DecisionModel::BuildGeneric(generic_budget->0)
                    &&& next is None && !blocks_generic && generic_budget is None ==> decision
                        == DecisionModel::BuildGeneric(0)
                },
            }
        }),
{
}

/// The difference, but not below zero.
pub open spec fn without(v: u32, by: u32) -> int {
    if v >= by {
        v - by
    } else {
        0
    }
}

/// A new unit lessens the lack of room. A lander lessens that for heavy units while any is lacking;
/// everything else lessens that for light ones. By the third rule set only landers and helicopters
/// count, and only with their room at sea. Captors are counted elsewhere.
pub proof fn law_transports_lessen_the_lack_of_room(
    demands: ProductionDemands,
    unit_type: UnitType,
    max_cargo: u32,
    sea_slots: (u32, u32),
    is_v3: bool,
)
    ensures
        ({
            let r = demands_after(demands, unit_type, max_cargo, sea_slots, is_v3);
            let counts = !is_v3 || unit_type == UnitType::Lander || unit_type
                == UnitType::TransportHelicopter;
            let heavy = counts && unit_type == UnitType::Lander && demands.heavy_transport >= 1;
            let light = counts && !heavy;
            &&& r.capture == demands.capture
            &&& heavy ==> r.heavy_transport == without(
                demands.heavy_transport,
                if is_v3 {
                    sea_slots.1
                } else {
                    max_cargo
                },
            )
            &&& !heavy ==> r.heavy_transport == demands.heavy_transport
            &&& light ==> r.light_transport == without(
                demands.light_transport,
                if is_v3 {
                    sea_slots.0
                } else {
                    max_cargo
                },
            )
            &&& !light ==> r.light_transport == demands.light_transport
        }),
{
}

/// An order takes its price from the money and its facility from those that are free, is given for
/// the player at that place, and lessens what is lacking: one captor if it captures, and room.
pub proof fn law_order_takes_its_price_and_place(
    state: GenericModel,
    c: ProductionCandidate,
    sea_slots: (u32, u32),
)
    ensures
        ({
            let r = generic_after(state, c, sea_slots);
            let room = demands_after(
                state.demands,
                c.unit_type,
                c.max_cargo,
                sea_slots,
                state.is_v3,
            );
            &&& r.remaining_funds == without(state.remaining_funds, c.cost)
            &&& r.costs == state.costs.push(c.cost)
            &&& r.used == state.used.push(c.facility_position)
            &&& r.commands == state.commands.push(
                ProduceUnitCommand {
                    player_id: state.player_id,
                    target_x: c.facility_position.x,
                    target_y: c.facility_position.y,
                    unit_type: c.unit_type,
                },
            )
            &&& r.demands.light_transport == room.light_transport
            &&& r.demands.heavy_transport == room.heavy_transport
            &&& c.can_capture ==> r.demands.capture == without(state.demands.capture, 1)
            &&& !c.can_capture ==> r.demands.capture == state.demands.capture
            &&& r.player_id == state.player_id && r.is_v3 == state.is_v3 && r.funds == state.funds
        }),
{
}

/// A candidate stands for its option: the type and its price at the facility, worth what the type
/// is worth there.
pub proof fn law_candidate_stands_for_its_option(
    scene: ScoreScene,
    facilities: Seq<(GridPosition, Terrain)>,
    types: Seq<(UnitType, UnitStats)>,
    list: Seq<(usize, usize)>,
    weights: Seq<OptionWeight>,
    is_v3: bool,
    i: int,
)
    requires
        0 <= i < list.len(),
    ensures
        ({
            let all = candidates_of(scene, facilities, types, list, weights, is_v3);
            let facility = facilities[list[i].0 as int];
            let (unit_type, stats) = types[list[i].1 as int];
            &&& all.len() == list.len()
            &&& all[i].facility_position == facility.0
            &&& all[i].unit_type == unit_type
            &&& all[i].cost == stats.cost && all[i].max_cargo == stats.max_cargo
                && all[i].can_capture == stats.can_capture
            &&& all[i].score == unit_score(
                scene,
                unit_type,
                stats,
                facility.0,
                facility.1,
                weights[i].sea_slots,
                weights[i].terms,
                is_v3,
            )
        }),
{
}

} // verus!
