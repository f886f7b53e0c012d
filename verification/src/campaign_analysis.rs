//! The analysis of all islands at once.
use crate::campaign_facts::{
    all_facts, blank_facts, collect_island_campaign_facts, collect_scene_units, facts_of, find_facts,
    find_operation, operation_for, sort_islands, CampaignScene,
};
use crate::campaign_pool::{collect_campaign_resource_pool, pool_units};
use crate::campaign_requirements::{
    campaign_target, candidate_target_position, is_capable, is_unavailable, least_combat_cost,
    minimum_producible_campaign_combat_cost, no_requirement, operation_has_live_capability,
    requirement_for_assessment, requirement_of, revised, sole_capturable_landmass_id, sole_island,
    unavailable_campaign_entities,
};
use crate::entity::{lemma_contains_sum, push_entities, Entity};
use crate::grid::GridPosition;
use crate::island_campaign::{
    candidate_models, island_candidate_models, operation_models, AssessmentModel,
    CampaignResourcePool, ExistingCampaignOperation, IslandCampaignAssessment,
    IslandCampaignCandidate, IslandCampaignDecision, IslandCampaignFacts, IslandCampaignRequirement,
    IslandCampaignState, IslandCandidateModel, IslandJudgement, OperationModel, PlayerFunds,
};
use crate::islands::IslandId;
use crate::operations::{collect_assigned_transport_phases, collect_existing_operations};
use crate::snapshots::collect_property_snapshots;
use crate::units::PlayerId;
use vstd::prelude::*;

verus! {

/// What is handed on to be shared out: the islands with their requirements, and the resources.
#[derive(Clone, Debug)]
pub struct CampaignAgenda {
    pub candidates: Vec<IslandCampaignCandidate>,
    pub pool: CampaignResourcePool,
}

/// The first judgement from index `i` on that was made on these facts.
pub open spec fn judgement_on(
    list: Seq<IslandJudgement>,
    facts: IslandCampaignFacts,
    i: int,
) -> Option<int>
    decreases list.len() - i,
{
    if i >= list.len() {
        None
    } else if list[i].facts == facts {
        Some(i)
    } else {
        judgement_on(list, facts, i + 1)
    }
}

/// The judgement on the facts; an island that nothing was said about is left alone.
pub open spec fn assessed(list: Seq<IslandJudgement>, facts: IslandCampaignFacts) -> (
    AssessmentModel,
    u32,
) {
    match judgement_on(list, facts, 0) {
        Some(i) => (list[i].assessment@, list[i].assault_budget),
        None => (
            AssessmentModel {
                island_id: facts.island_id,
                state: IslandCampaignState::Ignored,
                decision: IslandCampaignDecision::Observe,
                decision_reason: Seq::empty(),
                required_budget: 0,
                allocated_budget: 0,
            },
            0,
        ),
    }
}

/// The fight for the island is left to the ordinary ground strategy: it is the only island with
/// something to capture.
pub open spec fn left_to_ground_strategy(
    sole: Option<IslandId>,
    island: IslandId,
    assessment: AssessmentModel,
) -> bool {
    sole == Some(island) && assessment.state == IslandCampaignState::Contested
}

/// The judgement that stands in the end.
pub open spec fn final_assessment(
    list: Seq<IslandJudgement>,
    facts: IslandCampaignFacts,
    sole: Option<IslandId>,
    island: IslandId,
) -> AssessmentModel {
    let (assessment, assault_budget) = assessed(list, facts);
    if left_to_ground_strategy(sole, island, assessment) {
        AssessmentModel {
            decision: IslandCampaignDecision::Observe,
            decision_reason: "単一の占領対象陸塊は通常の地上戦略で処理するため監視する"@,
            required_budget: 0,
            allocated_budget: 0,
            ..assessment
        }
    } else {
        revised(facts, assessment, assault_budget)
    }
}

/// The requirement that stands in the end.
pub open spec fn final_requirement(
    list: Seq<IslandJudgement>,
    facts: IslandCampaignFacts,
    sole: Option<IslandId>,
    island: IslandId,
) -> IslandCampaignRequirement {
    let (assessment, assault_budget) = assessed(list, facts);
    if left_to_ground_strategy(sole, island, assessment) {
        no_requirement()
    } else {
        requirement_of(facts, assessment, assault_budget)
    }
}

/// The campaign for the island, if it has something to go on with.
pub open spec fn capable_operation(operations: Seq<OperationModel>, id: IslandId) -> Option<
    OperationModel,
> {
    match operation_for(operations, id, 0) {
        Some(i) => if is_capable(operations[i]) {
            Some(operations[i])
        } else {
            None
        },
        None => None,
    }
}

/// What is known about the number of an island.
pub open spec fn facts_about(scene: CampaignScene, player: PlayerId, id: IslandId) -> IslandCampaignFacts {
    match scene.ledger(id, scene.islands.islands.len() as int) {
        Some(k) => facts_of(scene, player, k),
        None => blank_facts(id),
    }
}

/// What is handed on about the island at the place in the order; nothing if there is no tile to go for.
pub open spec fn island_candidate(
    scene: CampaignScene,
    player: PlayerId,
    list: Seq<IslandJudgement>,
    minimum: Option<u32>,
    k: int,
) -> Option<IslandCandidateModel> {
    let island = scene.island_at(k);
    let facts = facts_about(scene, player, island.id);
    let sole = sole_island(all_facts(scene, player));
    let operation = capable_operation(scene.operations(player), island.id);
    match campaign_target(island.tiles@, scene.properties(), player, operation) {
        Some(target_position) => Some(
            IslandCandidateModel {
                assessment: final_assessment(list, facts, sole, island.id),
                target_position,
                roi_production_sites: facts.roi_production_sites,
                transport_eta: facts.transport_eta,
                requirement: final_requirement(list, facts, sole, island.id),
                minimum_combat_purchase_cost: minimum,
                existing_operation: operation,
            },
        ),
        None => None,
    }
}

/// What is handed on about the first `n` islands of the order.
pub open spec fn island_candidates(
    scene: CampaignScene,
    player: PlayerId,
    list: Seq<IslandJudgement>,
    minimum: Option<u32>,
    n: int,
) -> Seq<IslandCandidateModel>
    decreases n,
{
    if n <= 0 {
        Seq::empty()
    } else {
        let rest = island_candidates(scene, player, list, minimum, n - 1);
        match island_candidate(scene, player, list, minimum, n - 1) {
            Some(c) => rest.push(c),
            None => rest,
        }
    }
}

/// The funds of the player by the list from index `i` on; none where the player is not listed.
pub open spec fn funds_of(list: Seq<PlayerFunds>, player: PlayerId, i: int) -> u32
    decreases list.len() - i,
{
    if i >= list.len() {
        0
    } else if list[i].player_id == player {
        list[i].funds
    } else {
        funds_of(list, player, i + 1)
    }
}

/// The list holds the units that no campaign may count on and those that are reserved, and no
/// others.
pub open spec fn is_taken_list(
    scene: CampaignScene,
    player: PlayerId,
    reserved: Seq<Entity>,
    taken: Seq<Entity>,
) -> bool {
    forall|e: Entity|
        #[trigger] taken.contains(e) <==> is_unavailable(scene.manager, scene.units(), player, e)
            || reserved.contains(e)
}

/// The funds of the player, or none.
pub fn player_funds(list: &Vec<PlayerFunds>, player: PlayerId) -> (r: u32)
    ensures
        r == funds_of(list@, player, 0),
{
    let mut i: usize = 0;
    while i < list.len()
        invariant
            i <= list.len(),
            funds_of(list@, player, 0) == funds_of(list@, player, i as int),
        decreases list.len() - i,
    {
        if list[i].player_id == player {
            return list[i].funds;
        }
        i += 1;
    }
    0
}

fn judge(list: &Vec<IslandJudgement>, facts: &IslandCampaignFacts) -> (r: (
    IslandCampaignAssessment,
    u32,
))
    ensures
        (r.0@, r.1) == assessed(list@, *facts),
{
    let mut i: usize = 0;
    while i < list.len()
        invariant
            i <= list.len(),
            judgement_on(list@, *facts, 0) == judgement_on(list@, *facts, i as int),
        decreases list.len() - i,
    {
        if list[i].facts == *facts {
            return (list[i].assessment.duplicate(), list[i].assault_budget);
        }
        i += 1;
    }
    let decision_reason = String::new();
    assert(decision_reason@ =~= Seq::<char>::empty());
    (
        IslandCampaignAssessment {
            island_id: facts.island_id,
            state: IslandCampaignState::Ignored,
            decision: IslandCampaignDecision::Observe,
            decision_reason,
            required_budget: 0,
            allocated_budget: 0,
        },
        0,
    )
}

fn settle(
    list: &Vec<IslandJudgement>,
    facts: &IslandCampaignFacts,
    sole: Option<IslandId>,
    island: IslandId,
) -> (r: (IslandCampaignAssessment, IslandCampaignRequirement))
    ensures
        r.0@ == final_assessment(list@, *facts, sole, island),
        r.1 == final_requirement(list@, *facts, sole, island),
{
    let (mut assessment, assault_budget) = judge(list, facts);
    let alone: bool = match sole {
        Some(id) => id == island,
        None => false,
    };
    if alone && assessment.state == IslandCampaignState::Contested {
        assessment.decision = IslandCampaignDecision::Observe;
        assessment.decision_reason =
        "単一の占領対象陸塊は通常の地上戦略で処理するため監視する".to_owned();
        assessment.required_budget = 0;
        assessment.allocated_budget = 0;
        let requirement = IslandCampaignRequirement {
            preferred_transport: None,
            transport_slots: 0,
            capture_units: 0,
            combat_budget: 0,
            total_budget: 0,
        };
        (assessment, requirement)
    } else {
        let requirement = requirement_for_assessment(facts, &mut assessment, assault_budget);
        (assessment, requirement)
    }
}

fn find_capable_operation(operations: &Vec<ExistingCampaignOperation>, id: IslandId) -> (r: Option<
    ExistingCampaignOperation,
>)
    ensures
        match r {
            Some(o) => capable_operation(operation_models(operations@), id) == Some(o@),
            None => capable_operation(operation_models(operations@), id) is None,
        },
{
    match find_operation(operations, id) {
        Some(i) => {
            assert(operation_models(operations@)[i as int] == operations[i as int]@);
            if operation_has_live_capability(&operations[i]) {
                Some(operations[i].duplicate())
            } else {
                None
            }
        },
        None => None,
    }
}

/// The number of every island of the order has a place.
proof fn lemma_ledger(scene: CampaignScene, k: int, n: int)
    requires
        0 <= k < n,
    ensures
        scene.ledger(scene.island_at(k).id, n) is Some,
    decreases n,
{
    if k < n - 1 {
        lemma_ledger(scene, k, n - 1);
    }
}

/// Analyses all islands and gathers the shared resources, both from the board alone.
pub fn analyze_island_campaign(
    scene: &CampaignScene,
    player_id: PlayerId,
    players: &Vec<PlayerFunds>,
    judgements: &Vec<IslandJudgement>,
    production_range: &Vec<GridPosition>,
) -> (r: CampaignAgenda)
    ensures
        agenda_for(
            *scene,
            player_id,
            Seq::empty(),
            players@,
            judgements@,
            production_range@,
            r,
        ),
{
    let nobody: Vec<Entity> = Vec::new();
    analyze_island_campaign_excluding(
        scene,
        player_id,
        &nobody,
        players,
        judgements,
        production_range,
    )
}

/// The agenda is what the scene asks for.
pub open spec fn agenda_for(
    scene: CampaignScene,
    player: PlayerId,
    reserved: Seq<Entity>,
    players: Seq<PlayerFunds>,
    judgements: Seq<IslandJudgement>,
    production_range: Seq<GridPosition>,
    agenda: CampaignAgenda,
) -> bool {
    &&& island_candidate_models(agenda.candidates@) == island_candidates(
        scene,
        player,
        judgements,
        least_combat_cost(
            scene.registry,
            scene.properties(),
            player,
            production_range,
            scene.properties().len() as int,
        ),
        scene.islands.islands.len() as int,
    )
    &&& agenda.pool.available_funds == funds_of(players, player, 0)
    &&& exists|taken: Seq<Entity>|
        #[trigger] is_taken_list(scene, player, reserved, taken) && candidate_models(
            agenda.pool.units@,
        ) == pool_units(
            scene.travel,
            scene.registry,
            scene.islands.islands@,
            scene.properties(),
            scene.operations(player),
            scene.units(),
            scene.states(player),
            taken,
            player,
        )
}

/// Analyses all islands and gathers the shared resources without the units that are reserved for
/// something more urgent.
pub fn analyze_island_campaign_excluding(
    scene: &CampaignScene,
    player_id: PlayerId,
    reserved_entities: &Vec<Entity>,
    players: &Vec<PlayerFunds>,
    judgements: &Vec<IslandJudgement>,
    production_range: &Vec<GridPosition>,
) -> (r: CampaignAgenda)
    ensures
        agenda_for(
            *scene,
            player_id,
            reserved_entities@,
            players@,
            judgements@,
            production_range@,
            r,
        ),
{
    let facts = collect_island_campaign_facts(scene, player_id);
    let properties = collect_property_snapshots(&scene.board);
    let minimum: Option<u32> = minimum_producible_campaign_combat_cost(
        &scene.registry,
        &properties,
        player_id,
        production_range,
    );
    let units = collect_scene_units(scene);
    let states = collect_assigned_transport_phases(&scene.manager, &units, player_id);
    let (operations, _cargoes) = collect_existing_operations(
        &scene.islands,
        &scene.manager,
        &units,
        player_id,
    );
    let funds: u32 = player_funds(players, player_id);
    let mut taken = unavailable_campaign_entities(&scene.manager, &units, player_id);
    let ghost before = taken@;
    push_entities(&mut taken, reserved_entities);
    proof {
        lemma_contains_sum(before, reserved_entities@);
        assert(is_taken_list(*scene, player_id, reserved_entities@, taken@));
    }
    let pool = collect_campaign_resource_pool(
        player_id,
        scene,
        &properties,
        &units,
        &operations,
        &states,
        &taken,
        funds,
    );
    let sole: Option<IslandId> = sole_capturable_landmass_id(facts.as_slice());
    let order = sort_islands(&scene.islands);
    let mut candidates: Vec<IslandCampaignCandidate> = Vec::new();
    let mut k: usize = 0;
    while k < order.len()
        invariant
            k <= order.len(),
            order.len() == scene.islands.islands.len(),
            forall|i: int| 0 <= i < order.len() ==> #[trigger] order[i] == scene.island_order()[i],
            forall|i: int|
                0 <= i < order.len() ==> #[trigger] order[i] < scene.islands.islands.len(),
            facts@ == all_facts(*scene, player_id),
            properties@ == scene.properties(),
            operation_models(operations@) == scene.operations(player_id),
            sole == sole_island(all_facts(*scene, player_id)),
            island_candidate_models(candidates@) == island_candidates(
                *scene,
                player_id,
                judgements@,
                minimum,
                k as int,
            ),
        decreases order.len() - k,
    {
        let island = &scene.islands.islands[order[k]];
        assert(*island == scene.island_at(k as int));
        proof {
            lemma_ledger(*scene, k as int, order.len() as int);
        }
        let known = match find_facts(scene, island.id) {
            Some(at) => {
                assert(facts@[at as int] == facts_of(*scene, player_id, at as int));
                facts[at]
            },
            None => facts[k],
        };
        let (assessment, requirement) = settle(judgements, &known, sole, island.id);
        let existing_operation = find_capable_operation(&operations, island.id);
        let target = match &existing_operation {
            Some(o) => candidate_target_position(island, &properties, player_id, Some(o)),
            None => candidate_target_position(island, &properties, player_id, None),
        };
        let ghost earlier = candidates@;
        if let Some(target_position) = target {
            let c = IslandCampaignCandidate {
                assessment,
                target_position,
                roi_production_sites: known.roi_production_sites,
                transport_eta: known.transport_eta,
                requirement,
                minimum_combat_purchase_cost: minimum,
                existing_operation,
            };
            candidates.push(c);
            assert(island_candidate_models(candidates@) =~= island_candidate_models(earlier).push(
                c@,
            ));
        }
        k += 1;
    }
    CampaignAgenda { candidates, pool }
}

} // verus!
