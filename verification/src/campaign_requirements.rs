//! What a campaign asks for, and what it may not count on.
use crate::entity::{
    ascending, lemma_contains_sum, lemma_sorted_entities, push_entities,
    sort_entities, Entity,
};
use crate::eta::{
    is_support_only, lesser, min_option, sorted_island_tiles, supports_only, unit_stats_for_type,
};
use crate::grid::{
    contains_position, read_before, reads_before, sorted_positions, GridPosition, Terrain,
};
use crate::island_campaign::{
    AssessmentModel, ExistingCampaignOperation, IslandCampaignAssessment, IslandCampaignDecision,
    IslandCampaignFacts, IslandCampaignRequirement, IslandCampaignState, OperationModel,
};
use crate::islands::{Island, IslandId};
use crate::master_data::MasterDataRegistry;
use crate::missions::TransportPhase;
use crate::operations::{is_live, is_live_transport_phase, is_own, owns};
use crate::snapshots::{models, PropertySnapshot, UnitModel, UnitSnapshot};
use crate::squad::{MissionPhase, MissionType, Squad, SquadManager};
use crate::transport_options::{all_master_unit_types, master_types};
use crate::units::{PlayerId, UnitType};
use vstd::prelude::*;

verus! {

/// Six fifths of the enemy's value, rounded up.
pub open spec fn superior_value(enemy_combat_value: u32) -> int {
    let scaled = (12 * enemy_combat_value + 9) / 10;
    if scaled > u32::MAX {
        u32::MAX as int
    } else {
        scaled
    }
}

/// Six fifths of the enemy's value, rounded up.
pub fn scaled_combat_requirement(enemy_combat_value: u32) -> (r: u32)
    ensures
        r == superior_value(enemy_combat_value),
{
    let scaled: u64 = (12 * (enemy_combat_value as u64) + 9) / 10;
    if scaled > 0xffff_ffff {
        0xffff_ffff
    } else {
        scaled as u32
    }
}

/// The requirement is the least value that reaches six fifths of the enemy's, as long as such a
/// value fits, and the greatest value there is above that.
pub proof fn law_superior_value_is_least(enemy_combat_value: u32)
    ensures
        12 * enemy_combat_value <= 10 * u32::MAX ==> {
            &&& 10 * superior_value(enemy_combat_value) >= 12 * enemy_combat_value
            &&& 10 * (superior_value(enemy_combat_value) - 1) < 12 * enemy_combat_value
        },
        12 * enemy_combat_value > 10 * u32::MAX ==> superior_value(enemy_combat_value) == u32::MAX,
{
}

/// The player may win the race for the island: they capture at most one turn after the enemy and
/// are not weaker there.
pub open spec fn is_competitive(facts: IslandCampaignFacts) -> bool {
    match (facts.friendly_capture_eta, facts.enemy_capture_eta) {
        (Some(own), Some(enemy)) => own <= enemy.saturating_add(1) && facts.friendly_combat_value
            >= facts.enemy_combat_value,
        _ => false,
    }
}

/// Whether the player may win the race for the island.
pub fn contested_is_competitive(facts: &IslandCampaignFacts) -> (r: bool)
    ensures
        r == is_competitive(*facts),
{
    match facts.friendly_capture_eta {
        Some(own) => match facts.enemy_capture_eta {
            Some(enemy) => own <= enemy.saturating_add(1) && facts.friendly_combat_value
                >= facts.enemy_combat_value,
            None => false,
        },
        None => false,
    }
}

/// The island at the index is the only one with something to capture.
pub open spec fn is_sole(facts: Seq<IslandCampaignFacts>, i: int) -> bool {
    0 <= i < facts.len() && facts[i].capturable_properties > 0 && forall|j: int|
        0 <= j < facts.len() && j != i ==> (#[trigger] facts[j]).capturable_properties == 0
}

/// The only island with something to capture, if there is exactly one: fighting on it is left to
/// the ordinary ground strategy.
pub open spec fn sole_island(facts: Seq<IslandCampaignFacts>) -> Option<IslandId> {
    if exists|i: int| is_sole(facts, i) {
        Some(facts[choose|i: int| is_sole(facts, i)].island_id)
    } else {
        None
    }
}

/// The only island with something to capture, if there is exactly one.
pub fn sole_capturable_landmass_id(facts: &[IslandCampaignFacts]) -> (r: Option<IslandId>)
    ensures
        r == sole_island(facts@),
{
    let mut first: Option<usize> = None;
    let mut n: usize = 0;
    let count: usize = facts.len();
    while n < count
        invariant
            n <= count,
            count == facts@.len(),
            match first {
                Some(i) => i < n && facts@[i as int].capturable_properties > 0 && forall|j: int|
                    0 <= j < n && j != i ==> (#[trigger] facts@[j]).capturable_properties == 0,
                None => forall|j: int|
                    0 <= j < n ==> (#[trigger] facts@[j]).capturable_properties == 0,
            },
        decreases count - n,
    {
        if facts[n].capturable_properties > 0 {
            if let Some(i) = first {
                proof {
                    assert forall|k: int| !is_sole(facts@, k) by {
                        assert(facts@[i as int].capturable_properties > 0);
                        assert(facts@[n as int].capturable_properties > 0);
                    }
                }
                return None;
            }
            first = Some(n);
        }
        n += 1;
    }
    match first {
        Some(i) => {
            proof {
                assert(is_sole(facts@, i as int));
                let k = choose|k: int| is_sole(facts@, k);
                assert(is_sole(facts@, k));
                if k != i {
                    assert(facts@[i as int].capturable_properties == 0);
                }
            }
            Some(facts[i].island_id)
        },
        None => {
            proof {
                assert forall|k: int| !is_sole(facts@, k) by {
                    if 0 <= k < facts@.len() {
                        assert(facts@[k].capturable_properties == 0);
                    }
                }
            }
            None
        },
    }
}

/// Nothing is asked for.
pub open spec fn no_requirement() -> IslandCampaignRequirement {
    IslandCampaignRequirement {
        preferred_transport: None,
        transport_slots: 0,
        capture_units: 0,
        combat_budget: 0,
        total_budget: 0,
    }
}

/// Fighting power alone is asked for.
pub open spec fn combat_requirement(value: u32) -> IslandCampaignRequirement {
    IslandCampaignRequirement { combat_budget: value, total_budget: value, ..no_requirement() }
}

/// What a judgement asks for. Expansion onto open land takes a helicopter and two units to capture
/// with. A threatened island takes what the enemy sends. A contested one takes nothing while the
/// race can be won, and superior force otherwise. An island that the enemy holds takes a lander, a
/// helicopter, two units to capture with and superior force of at least 10,200.
pub open spec fn requirement_of(
    facts: IslandCampaignFacts,
    assessment: AssessmentModel,
    assault_budget: u32,
) -> IslandCampaignRequirement {
    match assessment.state {
        IslandCampaignState::OpenNeutral => if assessment.decision
            == IslandCampaignDecision::Expand {
            IslandCampaignRequirement {
                preferred_transport: Some(UnitType::TransportHelicopter),
                transport_slots: 2,
                capture_units: 2,
                combat_budget: 0,
                total_budget: 6_000,
            }
        } else {
            no_requirement()
        },
        IslandCampaignState::Threatened => combat_requirement(facts.enemy_combat_value),
        IslandCampaignState::Contested => if is_competitive(facts) {
            no_requirement()
        } else {
            combat_requirement(superior_value(facts.enemy_combat_value) as u32)
        },
        IslandCampaignState::EnemyHeld => IslandCampaignRequirement {
            preferred_transport: Some(UnitType::Lander),
            transport_slots: 4,
            capture_units: 2,
            combat_budget: if superior_value(facts.enemy_combat_value) > 10_200 {
                superior_value(facts.enemy_combat_value) as u32
            } else {
                10_200
            },
            total_budget: assault_budget,
        },
        _ => no_requirement(),
    }
}

/// The judgement after its requirement was worked out: the budget, and what is done about a
/// contested island.
pub open spec fn revised(
    facts: IslandCampaignFacts,
    assessment: AssessmentModel,
    assault_budget: u32,
) -> AssessmentModel {
    match assessment.state {
        IslandCampaignState::Threatened => AssessmentModel {
            required_budget: facts.enemy_combat_value,
            ..assessment
        },
        IslandCampaignState::Contested => if is_competitive(facts) {
            AssessmentModel {
                decision: IslandCampaignDecision::Contest,
                decision_reason: "占領競争と現地戦力が競争可能なため作戦を継続する"@,
                ..assessment
            }
        } else {
            AssessmentModel {
                decision: IslandCampaignDecision::Reinforce,
                decision_reason: "敵戦力の120%へ到達する完全増援を暫定要求する"@,
                required_budget: superior_value(facts.enemy_combat_value) as u32,
                ..assessment
            }
        },
        IslandCampaignState::EnemyHeld => AssessmentModel {
            required_budget: assault_budget,
            ..assessment
        },
        _ => assessment,
    }
}

fn power(value: u32) -> (r: IslandCampaignRequirement)
    ensures
        r == combat_requirement(value),
{
    IslandCampaignRequirement {
        preferred_transport: None,
        transport_slots: 0,
        capture_units: 0,
        combat_budget: value,
        total_budget: value,
    }
}

/// What a judgement asks for; the judgement takes note of it.
pub fn requirement_for_assessment(
    facts: &IslandCampaignFacts,
    assessment: &mut IslandCampaignAssessment,
    assault_budget: u32,
) -> (r: IslandCampaignRequirement)
    ensures
        r == requirement_of(*facts, old(assessment)@, assault_budget),
        final(assessment)@ == revised(*facts, old(assessment)@, assault_budget),
{
    match assessment.state {
        IslandCampaignState::OpenNeutral => {
            if assessment.decision == IslandCampaignDecision::Expand {
                IslandCampaignRequirement {
                    preferred_transport: Some(UnitType::TransportHelicopter),
                    transport_slots: 2,
                    capture_units: 2,
                    combat_budget: 0,
                    total_budget: 6_000,
                }
            } else {
                power(0)
            }
        },
        IslandCampaignState::Threatened => {
            assessment.required_budget = facts.enemy_combat_value;
            power(facts.enemy_combat_value)
        },
        IslandCampaignState::Contested => {
            if contested_is_competitive(facts) {
                assessment.decision = IslandCampaignDecision::Contest;
                assessment.decision_reason =
                "占領競争と現地戦力が競争可能なため作戦を継続する".to_owned();
                power(0)
            } else {
                let required: u32 = scaled_combat_requirement(facts.enemy_combat_value);
                assessment.decision = IslandCampaignDecision::Reinforce;
                assessment.decision_reason =
                "敵戦力の120%へ到達する完全増援を暫定要求する".to_owned();
                assessment.required_budget = required;
                power(required)
            }
        },
        IslandCampaignState::EnemyHeld => {
            let scaled: u32 = scaled_combat_requirement(facts.enemy_combat_value);
            let combat_budget: u32 = if scaled > 10_200 {
                scaled
            } else {
                10_200
            };
            assessment.required_budget = assault_budget;
            IslandCampaignRequirement {
                preferred_transport: Some(UnitType::Lander),
                transport_slots: 4,
                capture_units: 2,
                combat_budget,
                total_budget: assault_budget,
            }
        },
        _ => power(0),
    }
}

/// Where the capitals of the player among the first `n` buildings stand.
pub open spec fn capitals(properties: Seq<PropertySnapshot>, player: PlayerId, n: int) -> Seq<
    GridPosition,
>
    decreases n,
{
    if n <= 0 {
        Seq::empty()
    } else {
        let rest = capitals(properties, player, n - 1);
        let s = properties[n - 1];
        if s.property.owner_id == Some(player) && s.property.terrain == Terrain::Capital {
            rest.push(s.position)
        } else {
            rest
        }
    }
}

/// Where the capitals of the player stand: production is allowed around them.
pub fn own_capitals(properties: &Vec<PropertySnapshot>, player_id: PlayerId) -> (r: Vec<GridPosition>)
    ensures
        r@ == capitals(properties@, player_id, properties.len() as int),
{
    let mut r: Vec<GridPosition> = Vec::new();
    let mut n: usize = 0;
    while n < properties.len()
        invariant
            n <= properties.len(),
            r@ == capitals(properties@, player_id, n as int),
        decreases properties.len() - n,
    {
        let s = properties[n];
        let own: bool = match s.property.owner_id {
            Some(owner) => owner == player_id,
            None => false,
        };
        if own && s.property.terrain == Terrain::Capital {
            r.push(s.position);
        }
        n += 1;
    }
    r
}

/// The building can produce for the player: it is theirs, builds units, and lies where production
/// is allowed.
pub open spec fn produces_for(
    registry: MasterDataRegistry,
    s: PropertySnapshot,
    player: PlayerId,
    allowed: Seq<GridPosition>,
) -> bool {
    s.property.owner_id == Some(player) && registry.builds(s.property.terrain) && allowed.contains(
        s.position,
    )
}

/// The least cost of a unit for fighting among the first `n` types that the terrain builds.
pub open spec fn least_type_cost(
    registry: MasterDataRegistry,
    terrain: Terrain,
    types: Seq<UnitType>,
    n: int,
) -> Option<u32>
    decreases n,
{
    if n <= 0 {
        None
    } else {
        let rest = least_type_cost(registry, terrain, types, n - 1);
        let t = types[n - 1];
        match registry.unit(t) {
            Some(stats) => if registry.builds_type(terrain, t) && !supports_only(t) {
                lesser(rest, Some(stats.cost))
            } else {
                rest
            },
            None => rest,
        }
    }
}

/// The least cost of a unit for fighting that the first `n` buildings can produce.
pub open spec fn least_combat_cost(
    registry: MasterDataRegistry,
    properties: Seq<PropertySnapshot>,
    player: PlayerId,
    allowed: Seq<GridPosition>,
    n: int,
) -> Option<u32>
    decreases n,
{
    if n <= 0 {
        None
    } else {
        let rest = least_combat_cost(registry, properties, player, allowed, n - 1);
        let s = properties[n - 1];
        if produces_for(registry, s, player, allowed) {
            let types = master_types(registry);
            lesser(rest, least_type_cost(registry, s.property.terrain, types, types.len() as int))
        } else {
            rest
        }
    }
}

/// The least cost of a unit for fighting that the player can produce. `allowed` holds the places
/// within production range of a capital of the player.
pub fn minimum_producible_campaign_combat_cost(
    registry: &MasterDataRegistry,
    properties: &Vec<PropertySnapshot>,
    player_id: PlayerId,
    allowed: &Vec<GridPosition>,
) -> (r: Option<u32>)
    ensures
        r == least_combat_cost(
            *registry,
            properties@,
            player_id,
            allowed@,
            properties.len() as int,
        ),
{
    let types = all_master_unit_types(registry);
    let mut best: Option<u32> = None;
    let mut n: usize = 0;
    while n < properties.len()
        invariant
            n <= properties.len(),
            types@ == master_types(*registry),
            best == least_combat_cost(*registry, properties@, player_id, allowed@, n as int),
        decreases properties.len() - n,
    {
        let s = properties[n];
        let own: bool = match s.property.owner_id {
            Some(owner) => owner == player_id,
            None => false,
        };
        let terrain = s.property.terrain;
        if own && registry.is_production_facility(terrain) && contains_position(
            allowed,
            s.position,
        ) {
            let mut least: Option<u32> = None;
            let mut k: usize = 0;
            while k < types.len()
                invariant
                    k <= types.len(),
                    least == least_type_cost(*registry, terrain, types@, k as int),
                decreases types.len() - k,
            {
                let t = types[k];
                if registry.can_produce_unit(terrain, t) && !is_support_only(t) {
                    if let Some(stats) = unit_stats_for_type(registry, t) {
                        least = min_option(least, Some(stats.cost));
                    }
                }
                k += 1;
            }
            best = min_option(best, least);
        }
        n += 1;
    }
    best
}

/// The building stands on the island and can be captured by the player.
pub open spec fn is_prize(tiles: Seq<GridPosition>, player: PlayerId, s: PropertySnapshot) -> bool {
    tiles.contains(s.position) && s.property.max_capture_points > 0 && s.property.owner_id != Some(
        player,
    )
}

/// Where the first prize in reading order among the first `n` buildings stands.
pub open spec fn first_prize(
    tiles: Seq<GridPosition>,
    properties: Seq<PropertySnapshot>,
    player: PlayerId,
    n: int,
) -> Option<GridPosition>
    decreases n,
{
    if n <= 0 {
        None
    } else {
        let rest = first_prize(tiles, properties, player, n - 1);
        let s = properties[n - 1];
        if is_prize(tiles, player, s) {
            match rest {
                Some(p) => if read_before(s.position, p) {
                    Some(s.position)
                } else {
                    Some(p)
                },
                None => Some(s.position),
            }
        } else {
            rest
        }
    }
}

/// The tile that a campaign for the island goes for: that of the campaign under way, else the
/// first prize, else the first tile.
pub open spec fn campaign_target(
    tiles: Seq<GridPosition>,
    properties: Seq<PropertySnapshot>,
    player: PlayerId,
    operation: Option<OperationModel>,
) -> Option<GridPosition> {
    match operation {
        Some(o) => Some(o.target_position),
        None => match first_prize(tiles, properties, player, properties.len() as int) {
            Some(p) => Some(p),
            None => {
                let sorted = sorted_positions(tiles);
                if sorted.len() > 0 {
                    Some(sorted[0])
                } else {
                    None
                }
            },
        },
    }
}

/// The tile that a campaign for the island goes for.
pub fn candidate_target_position(
    island: &Island,
    properties: &Vec<PropertySnapshot>,
    player_id: PlayerId,
    existing_operation: Option<&ExistingCampaignOperation>,
) -> (r: Option<GridPosition>)
    ensures
        r == campaign_target(
            island.tiles@,
            properties@,
            player_id,
            match existing_operation {
                Some(o) => Some(o@),
                None => None,
            },
        ),
{
    if let Some(o) = existing_operation {
        return Some(o.target_position);
    }
    let mut best: Option<GridPosition> = None;
    let mut n: usize = 0;
    while n < properties.len()
        invariant
            n <= properties.len(),
            best == first_prize(island.tiles@, properties@, player_id, n as int),
        decreases properties.len() - n,
    {
        let s = properties[n];
        let own: bool = match s.property.owner_id {
            Some(owner) => owner == player_id,
            None => false,
        };
        if !own && s.property.max_capture_points > 0 && contains_position(
            &island.tiles,
            s.position,
        ) {
            best = match best {
                Some(p) => if reads_before(s.position, p) {
                    Some(s.position)
                } else {
                    Some(p)
                },
                None => Some(s.position),
            };
        }
        n += 1;
    }
    match best {
        Some(p) => Some(p),
        None => {
            let tiles = sorted_island_tiles(island);
            if tiles.len() > 0 {
                Some(tiles[0])
            } else {
                None
            }
        },
    }
}

/// The campaign has something to go on with: a transport that is forming or on its way, or units
/// to capture or fight with.
pub open spec fn is_capable(o: OperationModel) -> bool {
    ((o.is_forming || (o.transport_phase matches Some(p) && is_live(p)))
        && o.transport_entities.len() > 0) || o.capture_entities.len() > 0
        || o.combat_entities.len() > 0
}

/// Whether the campaign has something to go on with.
pub fn operation_has_live_capability(operation: &ExistingCampaignOperation) -> (r: bool)
    ensures
        r == is_capable(operation@),
{
    let under_way: bool = match operation.transport_phase {
        Some(p) => is_live_transport_phase(p),
        None => false,
    };
    ((operation.is_forming || under_way) && operation.transport_entities.len() > 0)
        || operation.capture_entities.len() > 0 || operation.combat_entities.len() > 0
}

/// The squad is done or on its way home.
pub open spec fn is_done(squad: Squad) -> bool {
    squad.phase == MissionPhase::Completed || squad.phase == MissionPhase::Transport(
        TransportPhase::Return,
    )
}

/// The squad carries units to nowhere in particular.
pub open spec fn is_aimless(squad: Squad) -> bool {
    squad.mission_type == MissionType::Transport && squad.target_island is None
        && squad.target is None
}

/// The squad holds on to the unit although it no longer works towards a goal.
pub open spec fn holds_back(units: Seq<UnitModel>, player: PlayerId, squad: Squad, e: Entity) -> bool {
    is_own(units, player, e) && if is_done(squad) {
        squad.transport_entity == Some(e) || squad.cargo_entities@.contains(e)
            || squad.delivered_cargo@.contains(e)
    } else {
        is_aimless(squad) && squad.delivered_cargo@.contains(e)
    }
}

/// No campaign may count on the unit: it acts on its own, or a squad holds it back.
pub open spec fn is_unavailable(
    manager: SquadManager,
    units: Seq<UnitModel>,
    player: PlayerId,
    e: Entity,
) -> bool {
    manager.solo_fallbacks@.contains(e) || exists|i: int|
        0 <= i < manager.squads.len() && holds_back(units, player, #[trigger] manager.squads[i], e)
}

fn collect_held_back(units: &Vec<UnitSnapshot>, player: PlayerId, squad: &Squad) -> (r: Vec<Entity>)
    ensures
        forall|e: Entity|
            #[trigger] r@.contains(e) <==> holds_back(models(units@), player, *squad, e),
{
    let done: bool = squad.phase == MissionPhase::Completed || squad.phase
        == MissionPhase::Transport(TransportPhase::Return);
    let aimless: bool = squad.mission_type == MissionType::Transport
        && squad.target_island.is_none() && squad.target.is_none();
    let mut named: Vec<Entity> = Vec::new();
    if done {
        if let Some(t) = squad.transport_entity {
            named.push(t);
        }
        let ghost first = named@;
        push_entities(&mut named, &squad.cargo_entities);
        let ghost second = named@;
        push_entities(&mut named, &squad.delivered_cargo);
        proof {
            lemma_contains_sum(first, squad.cargo_entities@);
            lemma_contains_sum(second, squad.delivered_cargo@);
            assert forall|e: Entity| #[trigger] first.contains(e) <==> squad.transport_entity
                == Some(e) by {
                if squad.transport_entity == Some(e) {
                    assert(first[0] == e);
                }
            }
        }
    } else if aimless {
        push_entities(&mut named, &squad.delivered_cargo);
        assert(named@ =~= squad.delivered_cargo@);
    }
    let ghost all = models(units@);
    let mut r: Vec<Entity> = Vec::new();
    let mut n: usize = 0;
    while n < named.len()
        invariant
            n <= named.len(),
            all == models(units@),
            forall|e: Entity|
                #[trigger] r@.contains(e) <==> is_own(all, player, e) && exists|i: int|
                    0 <= i < n && #[trigger] named@[i] == e,
        decreases named.len() - n,
    {
        let e = named[n];
        let ghost before = r@;
        if owns(units, player, e) {
            r.push(e);
        }
        proof {
            assert forall|x: Entity|
                #[trigger] r@.contains(x) <==> is_own(all, player, x) && exists|i: int|
                    0 <= i < n + 1 && #[trigger] named@[i] == x by {
                if r@.contains(x) {
                    let k = choose|k: int| 0 <= k < r@.len() && r@[k] == x;
                    if k < before.len() {
                        assert(before.contains(x));
                    } else {
                        assert(named@[n as int] == x);
                    }
                }
                if before.contains(x) {
                    let k = choose|k: int| 0 <= k < before.len() && before[k] == x;
                    assert(r@[k] == x);
                }
                if x == e && is_own(all, player, x) {
                    assert(r@[before.len() as int] == x);
                }
            }
        }
        n += 1;
    }
    proof {
        assert forall|e: Entity|
            #[trigger] r@.contains(e) <==> holds_back(all, player, *squad, e) by {
            if named@.contains(e) {
                let i = choose|i: int| 0 <= i < named@.len() && named@[i] == e;
                assert(named@[i] == e);
            }
            if exists|i: int| 0 <= i < n && #[trigger] named@[i] == e {
                assert(named@.contains(e));
            }
        }
    }
    r
}

/// The units that no campaign may count on, in ascending order.
pub fn unavailable_campaign_entities(
    manager: &SquadManager,
    units: &Vec<UnitSnapshot>,
    player_id: PlayerId,
) -> (r: Vec<Entity>)
    ensures
        ascending(r@),
        forall|e: Entity|
            #[trigger] r@.contains(e) <==> is_unavailable(*manager, models(units@), player_id, e),
{
    let ghost all = models(units@);
    let mut list: Vec<Entity> = Vec::new();
    push_entities(&mut list, &manager.solo_fallbacks);
    assert(list@ =~= manager.solo_fallbacks@);
    let mut n: usize = 0;
    while n < manager.squads.len()
        invariant
            n <= manager.squads.len(),
            all == models(units@),
            forall|e: Entity|
                #[trigger] list@.contains(e) <==> manager.solo_fallbacks@.contains(e) || exists|
                    i: int,
                |
                    0 <= i < n && holds_back(all, player_id, #[trigger] manager.squads[i], e),
        decreases manager.squads.len() - n,
    {
        let ghost before = list@;
        let more = collect_held_back(units, player_id, &manager.squads[n]);
        push_entities(&mut list, &more);
        proof {
            lemma_contains_sum(before, more@);
            assert forall|e: Entity|
                #[trigger] list@.contains(e) <==> manager.solo_fallbacks@.contains(e) || exists|
                    i: int,
                |
                    0 <= i < n + 1 && holds_back(all, player_id, #[trigger] manager.squads[i], e) by {
                if before.contains(e) && !manager.solo_fallbacks@.contains(e) {
                    let i = choose|i: int|
                        0 <= i < n && holds_back(all, player_id, #[trigger] manager.squads[i], e);
                    assert(0 <= i < n + 1 && holds_back(all, player_id, manager.squads[i], e));
                }
                if more@.contains(e) {
                    assert(holds_back(all, player_id, manager.squads[n as int], e));
                }
                if exists|i: int|
                    0 <= i < n + 1 && holds_back(all, player_id, #[trigger] manager.squads[i], e) {
                    let i = choose|i: int|
                        0 <= i < n + 1 && holds_back(
                            all,
                            player_id,
                            #[trigger] manager.squads[i],
                            e,
                        );
                    if i < n {
                        assert(before.contains(e));
                    } else {
                        assert(more@.contains(e));
                    }
                }
            }
        }
        n += 1;
    }
    proof {
        lemma_sorted_entities(list@);
    }
    sort_entities(&list)
}

/// A campaign without one under way goes for a prize before which no other prize comes in reading
/// order; there is none exactly if the island has no prize.
pub proof fn law_first_prize_is_first(
    tiles: Seq<GridPosition>,
    properties: Seq<PropertySnapshot>,
    player: PlayerId,
    n: int,
)
    requires
        0 <= n <= properties.len(),
    ensures
        match first_prize(tiles, properties, player, n) {
            Some(p) => {
                &&& exists|i: int|
                    0 <= i < n && is_prize(tiles, player, #[trigger] properties[i])
                        && properties[i].position == p
                &&& forall|i: int|
                    0 <= i < n && is_prize(tiles, player, #[trigger] properties[i])
                        ==> !read_before(properties[i].position, p)
            },
            None => forall|i: int|
                0 <= i < n ==> !is_prize(tiles, player, #[trigger] properties[i]),
        },
    decreases n,
{
    if n > 0 {
        law_first_prize_is_first(tiles, properties, player, n - 1);
        if let Some(p) = first_prize(tiles, properties, player, n - 1) {
            let i = choose|i: int|
                0 <= i < n - 1 && is_prize(tiles, player, #[trigger] properties[i])
                    && properties[i].position == p;
            assert(0 <= i < n && is_prize(tiles, player, properties[i]));
        }
    }
}

/// The building can produce the type for the player, and the type fights for the cost.
pub open spec fn fights_for(
    registry: MasterDataRegistry,
    s: PropertySnapshot,
    player: PlayerId,
    allowed: Seq<GridPosition>,
    t: UnitType,
    cost: u32,
) -> bool {
    &&& produces_for(registry, s, player, allowed)
    &&& registry.builds_type(s.property.terrain, t)
    &&& !supports_only(t)
    &&& registry.unit(t) matches Some(stats) && stats.cost == cost
}

proof fn lemma_least_type_cost(
    registry: MasterDataRegistry,
    s: PropertySnapshot,
    player: PlayerId,
    allowed: Seq<GridPosition>,
    types: Seq<UnitType>,
    n: int,
)
    requires
        0 <= n <= types.len(),
        produces_for(registry, s, player, allowed),
    ensures
        match least_type_cost(registry, s.property.terrain, types, n) {
            Some(c) => {
                &&& exists|t: int|
                    0 <= t < n && fights_for(
                        registry,
                        s,
                        player,
                        allowed,
                        #[trigger] types[t],
                        c,
                    )
                &&& forall|t: int, cost: u32|
                    0 <= t < n && #[trigger] fights_for(
                        registry,
                        s,
                        player,
                        allowed,
                        types[t],
                        cost,
                    ) ==> c <= cost
            },
            None => forall|t: int, cost: u32|
                0 <= t < n ==> !#[trigger] fights_for(
                    registry,
                    s,
                    player,
                    allowed,
                    types[t],
                    cost,
                ),
        },
    decreases n,
{
    if n > 0 {
        lemma_least_type_cost(registry, s, player, allowed, types, n - 1);
        let last = types[n - 1];
        if let Some(c) = least_type_cost(registry, s.property.terrain, types, n - 1) {
            let t = choose|t: int|
                0 <= t < n - 1 && fights_for(registry, s, player, allowed, #[trigger] types[t], c);
            assert(0 <= t < n && fights_for(registry, s, player, allowed, types[t], c));
        }
        if let Some(stats) = registry.unit(last) {
            if registry.builds_type(s.property.terrain, last) && !supports_only(last) {
                assert(fights_for(registry, s, player, allowed, types[n - 1], stats.cost));
            }
        }
    }
}

/// Some building can produce a fighting unit for the cost.
pub open spec fn is_combat_price(
    registry: MasterDataRegistry,
    properties: Seq<PropertySnapshot>,
    player: PlayerId,
    allowed: Seq<GridPosition>,
    n: int,
    cost: u32,
) -> bool {
    exists|i: int, t: int|
        0 <= i < n && 0 <= t < master_types(registry).len() && fights_for(
            registry,
            #[trigger] properties[i],
            player,
            allowed,
            #[trigger] master_types(registry)[t],
            cost,
        )
}

/// The least price for fighting is the price of some building and type, and no building and type
/// have a lower one; there is none exactly if nothing that fights can be produced.
pub proof fn law_least_combat_cost_is_least(
    registry: MasterDataRegistry,
    properties: Seq<PropertySnapshot>,
    player: PlayerId,
    allowed: Seq<GridPosition>,
    n: int,
)
    requires
        0 <= n <= properties.len(),
    ensures
        match least_combat_cost(registry, properties, player, allowed, n) {
            Some(c) => {
                &&& is_combat_price(registry, properties, player, allowed, n, c)
                &&& forall|cost: u32| #[trigger]
                    is_combat_price(registry, properties, player, allowed, n, cost) ==> c <= cost
            },
            None => forall|cost: u32|
                !#[trigger] is_combat_price(registry, properties, player, allowed, n, cost),
        },
    decreases n,
{
    if n > 0 {
        law_least_combat_cost_is_least(registry, properties, player, allowed, n - 1);
        let types = master_types(registry);
        let s = properties[n - 1];
        let here = least_type_cost(registry, s.property.terrain, types, types.len() as int);
        if produces_for(registry, s, player, allowed) {
            lemma_least_type_cost(registry, s, player, allowed, types, types.len() as int);
            if let Some(c) = here {
                let t = choose|t: int|
                    0 <= t < types.len() && fights_for(
                        registry,
                        s,
                        player,
                        allowed,
                        #[trigger] types[t],
                        c,
                    );
                assert(fights_for(registry, properties[n - 1], player, allowed, types[t], c));
                assert(is_combat_price(registry, properties, player, allowed, n, c));
            }
        }
        assert forall|cost: u32| #[trigger]
            is_combat_price(registry, properties, player, allowed, n, cost) implies is_combat_price(
            registry,
            properties,
            player,
            allowed,
            n - 1,
            cost,
        ) || (produces_for(registry, s, player, allowed) && here is Some && here->0 <= cost) by {
            let (i, t) = choose|i: int, t: int|
                0 <= i < n && 0 <= t < types.len() && fights_for(
                    registry,
                    #[trigger] properties[i],
                    player,
                    allowed,
                    #[trigger] types[t],
                    cost,
                );
            if i < n - 1 {
                assert(fights_for(registry, properties[i], player, allowed, types[t], cost));
            } else {
                assert(fights_for(registry, s, player, allowed, types[t], cost));
            }
        }
        assert forall|cost: u32|
            is_combat_price(
                registry,
                properties,
                player,
                allowed,
                n - 1,
                cost,
            ) implies #[trigger] is_combat_price(registry, properties, player, allowed, n, cost) by {
            let (i, t) = choose|i: int, t: int|
                0 <= i < n - 1 && 0 <= t < types.len() && fights_for(
                    registry,
                    #[trigger] properties[i],
                    player,
                    allowed,
                    #[trigger] types[t],
                    cost,
                );
            assert(fights_for(registry, properties[i], player, allowed, types[t], cost));
        }
        if let Some(c) = least_combat_cost(registry, properties, player, allowed, n - 1) {
            assert(is_combat_price(registry, properties, player, allowed, n, c));
        }
    }
}

/// The value is the least that reaches six fifths of the enemy's; where none does, it is the
/// greatest there is.
pub open spec fn is_superior(value: u32, enemy_combat_value: u32) -> bool {
    if 12 * enemy_combat_value <= 10 * u32::MAX {
        10 * value >= 12 * enemy_combat_value && 10 * (value - 1) < 12 * enemy_combat_value
    } else {
        value == u32::MAX
    }
}

/// What a campaign asks for measures up to the enemy. An assault asks for a lander with room for
/// four, two units to capture with, at least 10,200 of fighting power and at least six fifths of
/// what the enemy has there, and no more than the greater of the two; it costs the budget that it
/// is given. A threatened island is met with just what threatens it. A contested one is met with
/// six fifths of the enemy, unless the player captures at most one turn later and is not weaker:
/// then with nothing. Open land is taken with a helicopter for two units at 6,000, if it is to be
/// taken at all. Nothing else asks for anything.
pub proof fn law_requirement_measures_up_to_the_enemy(
    facts: IslandCampaignFacts,
    assessment: AssessmentModel,
    assault_budget: u32,
)
    ensures
        ({
            let r = requirement_of(facts, assessment, assault_budget);
            let enemy = facts.enemy_combat_value;
            let races = facts.friendly_capture_eta is Some && facts.enemy_capture_eta is Some
                && facts.friendly_capture_eta->0 <= facts.enemy_capture_eta->0 + 1
                && facts.friendly_combat_value >= enemy;
            let asks_nothing = r.preferred_transport is None && r.transport_slots == 0
                && r.capture_units == 0 && r.combat_budget == 0 && r.total_budget == 0;
            let asks_power = r.preferred_transport is None && r.transport_slots == 0
                && r.capture_units == 0 && r.total_budget == r.combat_budget;
            &&& assessment.state == IslandCampaignState::EnemyHeld ==> {
                &&& r.preferred_transport == Some(UnitType::Lander)
                &&& r.transport_slots == 4
                &&& r.capture_units == 2
                &&& r.combat_budget >= 10_200
                &&& 12 * enemy <= 10 * u32::MAX ==> 10 * r.combat_budget >= 12 * enemy
                &&& 12 * enemy > 10 * u32::MAX ==> r.combat_budget == u32::MAX
                &&& r.combat_budget == 10_200 || is_superior(r.combat_budget, enemy)
                &&& r.total_budget == assault_budget
            }
            &&& assessment.state == IslandCampaignState::Threatened ==> asks_power
                && r.combat_budget == enemy
            &&& assessment.state == IslandCampaignState::Contested && races ==> asks_nothing
            &&& assessment.state == IslandCampaignState::Contested && !races ==> asks_power
                && is_superior(r.combat_budget, enemy)
            &&& assessment.state == IslandCampaignState::OpenNeutral && assessment.decision
                == IslandCampaignDecision::Expand ==> {
                &&& r.preferred_transport == Some(UnitType::TransportHelicopter)
                &&& r.transport_slots == 2
                &&& r.capture_units == 2
                &&& r.combat_budget == 0
                &&& r.total_budget == 6_000
            }
            &&& assessment.state == IslandCampaignState::OpenNeutral && assessment.decision
                != IslandCampaignDecision::Expand ==> asks_nothing
            &&& assessment.state != IslandCampaignState::EnemyHeld && assessment.state
                != IslandCampaignState::Threatened && assessment.state
                != IslandCampaignState::Contested && assessment.state
                != IslandCampaignState::OpenNeutral ==> asks_nothing
        }),
{
}

/// A stronger enemy never makes a campaign ask for less fighting power.
pub proof fn law_requirement_grows_with_the_enemy(
    weaker: IslandCampaignFacts,
    stronger: IslandCampaignFacts,
    assessment: AssessmentModel,
    assault_budget: u32,
)
    requires
        weaker.enemy_combat_value <= stronger.enemy_combat_value,
        stronger.friendly_capture_eta == weaker.friendly_capture_eta,
        stronger.enemy_capture_eta == weaker.enemy_capture_eta,
        stronger.friendly_combat_value == weaker.friendly_combat_value,
    ensures
        requirement_of(weaker, assessment, assault_budget).combat_budget <= requirement_of(
            stronger,
            assessment,
            assault_budget,
        ).combat_budget,
{
}

/// The judgement takes note of what the campaign asks for and of nothing else. Its budget is what
/// is asked for wherever something is asked for and the land is not simply open. A contested
/// island is contested as long as the race can be won, and reinforced otherwise.
pub proof fn law_judgement_follows_requirement(
    facts: IslandCampaignFacts,
    assessment: AssessmentModel,
    assault_budget: u32,
)
    ensures
        ({
            let r = requirement_of(facts, assessment, assault_budget);
            let next = revised(facts, assessment, assault_budget);
            let races = facts.friendly_capture_eta is Some && facts.enemy_capture_eta is Some
                && facts.friendly_capture_eta->0 <= facts.enemy_capture_eta->0 + 1
                && facts.friendly_combat_value >= facts.enemy_combat_value;
            &&& next == (AssessmentModel {
                decision: next.decision,
                decision_reason: next.decision_reason,
                required_budget: next.required_budget,
                ..assessment
            })
            &&& next.required_budget == (match assessment.state {
                IslandCampaignState::Threatened => r.total_budget,
                IslandCampaignState::EnemyHeld => r.total_budget,
                IslandCampaignState::Contested => if races {
                    assessment.required_budget
                } else {
                    r.total_budget
                },
                _ => assessment.required_budget,
            })
            &&& next.decision == (if assessment.state != IslandCampaignState::Contested {
                assessment.decision
            } else if races {
                IslandCampaignDecision::Contest
            } else {
                IslandCampaignDecision::Reinforce
            })
            &&& assessment.state != IslandCampaignState::Contested ==> next.decision_reason
                == assessment.decision_reason
            &&& assessment.state == IslandCampaignState::Contested ==> next.decision_reason == (
            if races {
                "占領競争と現地戦力が競争可能なため作戦を継続する"@
            } else {
                "敵戦力の120%へ到達する完全増援を暫定要求する"@
            })
        }),
{
}

} // verus!
