//! What island campaigns are made of.
use crate::entity::Entity;
use crate::grid::GridPosition;
use crate::islands::IslandId;
use crate::missions::TransportPhase;
use crate::units::{PlayerId, UnitType};
use vstd::prelude::*;

verus! {

/// What is known of one island.
#[derive(Clone, Copy, Debug, PartialEq, Eq, Structural)]
pub struct IslandCampaignFacts {
    pub island_id: IslandId,
    pub capturable_properties: u32,
    pub strategic_production_sites: u32,
    pub roi_production_sites: u32,
    pub neutral_properties: u32,
    pub friendly_properties: u32,
    pub enemy_properties: u32,
    pub friendly_units: u32,
    pub enemy_units: u32,
    pub friendly_combat_value: u32,
    pub enemy_combat_value: u32,
    pub friendly_arrival_eta: Option<u32>,
    pub enemy_arrival_eta: Option<u32>,
    pub friendly_capture_eta: Option<u32>,
    pub enemy_capture_eta: Option<u32>,
    pub transport_eta: Option<u32>,
    pub capture_turns: u32,
    pub island_income_per_turn: u32,
    pub missing_expansion_package_cost: u32,
    pub reachable: bool,
    pub has_unowned_properties: bool,
}

/// How an island stands.
#[derive(Clone, Copy, Debug, PartialEq, Eq, Hash, Structural)]
pub enum IslandCampaignState {
    OpenNeutral,
    Contested,
    Threatened,
    EnemyHeld,
    Secured,
    Ignored,
}

/// What is to be done about an island.
#[derive(Clone, Copy, Debug, PartialEq, Eq, Hash, Structural)]
pub enum IslandCampaignDecision {
    Expand,
    Contest,
    Reinforce,
    Assault,
    Defend,
    Secure,
    Observe,
}

/// The judgement on one island.
#[derive(Clone, Debug)]
pub struct IslandCampaignAssessment {
    pub island_id: IslandId,
    pub state: IslandCampaignState,
    pub decision: IslandCampaignDecision,
    pub decision_reason: String,
    pub required_budget: u32,
    pub allocated_budget: u32,
}

/// The plain contents of a judgement.
pub struct AssessmentModel {
    pub island_id: IslandId,
    pub state: IslandCampaignState,
    pub decision: IslandCampaignDecision,
    pub decision_reason: Seq<char>,
    pub required_budget: u32,
    pub allocated_budget: u32,
}

impl View for IslandCampaignAssessment {
    type V = AssessmentModel;

    open spec fn view(&self) -> AssessmentModel {
        AssessmentModel {
            island_id: self.island_id,
            state: self.state,
            decision: self.decision,
            decision_reason: self.decision_reason@,
            required_budget: self.required_budget,
            allocated_budget: self.allocated_budget,
        }
    }
}

/// What a campaign asks for.
#[derive(Clone, Copy, Debug, PartialEq, Eq, Structural)]
pub struct IslandCampaignRequirement {
    pub preferred_transport: Option<UnitType>,
    pub transport_slots: u32,
    pub capture_units: u32,
    pub combat_budget: u32,
    pub total_budget: u32,
}

/// A campaign that is under way.
#[derive(Clone, Debug)]
pub struct ExistingCampaignOperation {
    pub island_id: IslandId,
    pub target_position: GridPosition,
    pub transport_phase: Option<TransportPhase>,
    pub is_forming: bool,
    pub transport_entities: Vec<Entity>,
    pub capture_entities: Vec<Entity>,
    pub combat_entities: Vec<Entity>,
}

/// The plain contents of a campaign that is under way.
pub struct OperationModel {
    pub island_id: IslandId,
    pub target_position: GridPosition,
    pub transport_phase: Option<TransportPhase>,
    pub is_forming: bool,
    pub transport_entities: Seq<Entity>,
    pub capture_entities: Seq<Entity>,
    pub combat_entities: Seq<Entity>,
}

impl View for ExistingCampaignOperation {
    type V = OperationModel;

    open spec fn view(&self) -> OperationModel {
        OperationModel {
            island_id: self.island_id,
            target_position: self.target_position,
            transport_phase: self.transport_phase,
            is_forming: self.is_forming,
            transport_entities: self.transport_entities@,
            capture_entities: self.capture_entities@,
            combat_entities: self.combat_entities@,
        }
    }
}

/// The plain contents of the campaigns.
pub open spec fn operation_models(list: Seq<ExistingCampaignOperation>) -> Seq<OperationModel> {
    Seq::new(list.len(), |i: int| list[i]@)
}

impl ExistingCampaignOperation {
    /// The same once more.
    pub fn duplicate(&self) -> (r: ExistingCampaignOperation)
        ensures
            r@ == self@,
    {
        let transport_entities = self.transport_entities.clone();
        let capture_entities = self.capture_entities.clone();
        let combat_entities = self.combat_entities.clone();
        assert(transport_entities@ =~= self.transport_entities@);
        assert(capture_entities@ =~= self.capture_entities@);
        assert(combat_entities@ =~= self.combat_entities@);
        ExistingCampaignOperation {
            island_id: self.island_id,
            target_position: self.target_position,
            transport_phase: self.transport_phase,
            is_forming: self.is_forming,
            transport_entities,
            capture_entities,
            combat_entities,
        }
    }
}

impl IslandCampaignAssessment {
    /// The same once more.
    pub fn duplicate(&self) -> (r: IslandCampaignAssessment)
        ensures
            r@ == self@,
    {
        IslandCampaignAssessment {
            island_id: self.island_id,
            state: self.state,
            decision: self.decision,
            decision_reason: self.decision_reason.as_str().to_owned(),
            required_budget: self.required_budget,
            allocated_budget: self.allocated_budget,
        }
    }
}

/// A unit that campaigns can be given.
#[derive(Clone, Debug)]
pub struct CampaignUnitCandidate {
    pub entity: Entity,
    pub unit_type: UnitType,
    pub cost: u32,
    pub can_capture: bool,
    pub can_secure_local_property: bool,
    pub available_cargo_slots: u32,
    pub loaded_cargo_entities: Vec<Entity>,
    pub loadable_unit_types: Vec<UnitType>,
    pub is_transporting: bool,
    pub reachable_positions: Vec<GridPosition>,
    pub island_id: Option<IslandId>,
    pub assigned_island: Option<IslandId>,
}

/// The plain contents of a candidate.
pub struct CandidateModel {
    pub entity: Entity,
    pub unit_type: UnitType,
    pub cost: u32,
    pub can_capture: bool,
    pub can_secure_local_property: bool,
    pub available_cargo_slots: u32,
    pub loaded_cargo_entities: Seq<Entity>,
    pub loadable_unit_types: Seq<UnitType>,
    pub is_transporting: bool,
    pub reachable_positions: Seq<GridPosition>,
    pub island_id: Option<IslandId>,
    pub assigned_island: Option<IslandId>,
}

impl View for CampaignUnitCandidate {
    type V = CandidateModel;

    open spec fn view(&self) -> CandidateModel {
        CandidateModel {
            entity: self.entity,
            unit_type: self.unit_type,
            cost: self.cost,
            can_capture: self.can_capture,
            can_secure_local_property: self.can_secure_local_property,
            available_cargo_slots: self.available_cargo_slots,
            loaded_cargo_entities: self.loaded_cargo_entities@,
            loadable_unit_types: self.loadable_unit_types@,
            is_transporting: self.is_transporting,
            reachable_positions: self.reachable_positions@,
            island_id: self.island_id,
            assigned_island: self.assigned_island,
        }
    }
}

impl CampaignUnitCandidate {
    /// The same once more.
    pub fn duplicate(&self) -> (r: CampaignUnitCandidate)
        ensures
            r@ == self@,
    {
        let loaded_cargo_entities = self.loaded_cargo_entities.clone();
        let loadable_unit_types = self.loadable_unit_types.clone();
        let reachable_positions = self.reachable_positions.clone();
        assert(loaded_cargo_entities@ =~= self.loaded_cargo_entities@);
        assert(loadable_unit_types@ =~= self.loadable_unit_types@);
        assert(reachable_positions@ =~= self.reachable_positions@);
        CampaignUnitCandidate {
            entity: self.entity,
            unit_type: self.unit_type,
            cost: self.cost,
            can_capture: self.can_capture,
            can_secure_local_property: self.can_secure_local_property,
            available_cargo_slots: self.available_cargo_slots,
            loaded_cargo_entities,
            loadable_unit_types,
            is_transporting: self.is_transporting,
            reachable_positions,
            island_id: self.island_id,
            assigned_island: self.assigned_island,
        }
    }
}

/// The plain contents of the candidates.
pub open spec fn candidate_models(list: Seq<CampaignUnitCandidate>) -> Seq<CandidateModel> {
    Seq::new(list.len(), |i: int| list[i]@)
}

/// What there is to share between campaigns.
#[derive(Clone, Debug)]
pub struct CampaignResourcePool {
    pub available_funds: u32,
    pub units: Vec<CampaignUnitCandidate>,
}

/// An island with all that decides what a campaign for it gets.
#[derive(Clone, Debug)]
pub struct IslandCampaignCandidate {
    pub assessment: IslandCampaignAssessment,
    pub target_position: GridPosition,
    pub roi_production_sites: u32,
    pub transport_eta: Option<u32>,
    pub requirement: IslandCampaignRequirement,
    pub minimum_combat_purchase_cost: Option<u32>,
    pub existing_operation: Option<ExistingCampaignOperation>,
}

/// The plain contents of an island candidate.
pub struct IslandCandidateModel {
    pub assessment: AssessmentModel,
    pub target_position: GridPosition,
    pub roi_production_sites: u32,
    pub transport_eta: Option<u32>,
    pub requirement: IslandCampaignRequirement,
    pub minimum_combat_purchase_cost: Option<u32>,
    pub existing_operation: Option<OperationModel>,
}

impl View for IslandCampaignCandidate {
    type V = IslandCandidateModel;

    open spec fn view(&self) -> IslandCandidateModel {
        IslandCandidateModel {
            assessment: self.assessment@,
            target_position: self.target_position,
            roi_production_sites: self.roi_production_sites,
            transport_eta: self.transport_eta,
            requirement: self.requirement,
            minimum_combat_purchase_cost: self.minimum_combat_purchase_cost,
            existing_operation: match self.existing_operation {
                Some(o) => Some(o@),
                None => None,
            },
        }
    }
}

/// The plain contents of the island candidates.
pub open spec fn island_candidate_models(list: Seq<IslandCampaignCandidate>) -> Seq<
    IslandCandidateModel,
> {
    Seq::new(list.len(), |i: int| list[i]@)
}

/// What the campaign rules say about an island: the judgement, and what an assault would cost.
#[derive(Clone, Debug)]
pub struct IslandJudgement {
    pub facts: IslandCampaignFacts,
    pub assessment: IslandCampaignAssessment,
    pub assault_budget: u32,
}

/// Funds of a player.
#[derive(Clone, Copy, Debug, PartialEq, Eq, Structural)]
pub struct PlayerFunds {
    pub player_id: PlayerId,
    pub funds: u32,
}

} // verus!
