//! The units and funds that campaigns share.
use crate::campaign_facts::CampaignScene;
use crate::campaign_requirements::{is_capable, operation_has_live_capability};
use crate::entity::{contains_entity, Entity};
use crate::grid::GridPosition;
use crate::island_campaign::{
    candidate_models, operation_models, CampaignResourcePool, CampaignUnitCandidate, CandidateModel,
    ExistingCampaignOperation, OperationModel,
};
use crate::islands::{Island, IslandId, IslandMap};
use crate::master_data::MasterDataRegistry;
use crate::missions::{find_island_holding, island_holding};
use crate::operations::{
    find_state, find_unit, is_live, is_live_transport_phase, says_carried, state_in,
    AssignedTransportState,
};
use crate::order::{gather, key_views, lemma_sort_prefix, sort_order, stable_order};
use crate::snapshots::{models, PropertySnapshot, UnitModel, UnitSnapshot};
use crate::travel::TravelTable;
use crate::units::{PlayerId, UnitType};
use vstd::prelude::*;

verus! {

/// The campaign lists the unit.
pub open spec fn lists(o: OperationModel, e: Entity) -> bool {
    o.transport_entities.contains(e) || o.capture_entities.contains(e)
        || o.combat_entities.contains(e)
}

/// The island of the last of the first `n` capable campaigns that lists the unit.
pub open spec fn assigned_island(operations: Seq<OperationModel>, e: Entity, n: int) -> Option<
    IslandId,
>
    decreases n,
{
    if n <= 0 {
        None
    } else if is_capable(operations[n - 1]) && lists(operations[n - 1], e) {
        Some(operations[n - 1].island_id)
    } else {
        assigned_island(operations, e, n - 1)
    }
}

/// Some capable campaign for the island lists the unit.
pub open spec fn assigned_to(operations: Seq<OperationModel>, id: IslandId, e: Entity) -> bool {
    exists|i: int|
        0 <= i < operations.len() && is_capable(#[trigger] operations[i])
            && operations[i].island_id == id && lists(operations[i], e)
}

/// All that the unit carries belongs to its own campaign and says that it is carried.
pub open spec fn hold_is_campaigns(
    operations: Seq<OperationModel>,
    units: Seq<UnitModel>,
    unit: UnitModel,
    island: Option<IslandId>,
) -> bool {
    island matches Some(id) && forall|i: int|
        0 <= i < unit.loaded.len() ==> assigned_to(operations, id, #[trigger] unit.loaded[i])
            && says_carried(units, unit.loaded[i], unit.entity)
}

/// What the transport is assigned to lets a campaign have it.
pub open spec fn transport_available(
    unit: UnitModel,
    state: Option<AssignedTransportState>,
    island: Option<IslandId>,
    hold_owned: bool,
) -> bool {
    match state {
        None => unit.loaded.len() == 0,
        Some(AssignedTransportState::Forming(target, assigned)) => target is Some && target == island
            && assigned && hold_owned,
        Some(AssignedTransportState::Phase(phase, target, assigned)) => is_live(phase)
            && target is Some && target == island && assigned && hold_owned,
        Some(AssignedTransportState::Other) => false,
    }
}

/// The room that a campaign gets with the unit: what is free and what its own cargo takes.
pub open spec fn offered_room(unit: UnitModel, hold_owned: bool) -> u32 {
    unit.free_cargo_slots.saturating_add(
        if hold_owned {
            unit.loaded.len() as usize as u32
        } else {
            0
        },
    )
}

/// The unit carries others over the sea.
pub open spec fn is_offshore(unit_type: UnitType) -> bool {
    unit_type == UnitType::TransportHelicopter || unit_type == UnitType::Lander
}

/// A campaign can be given the unit: nothing else has it, and a transport has fuel, room and no
/// other duty.
pub open spec fn is_candidate(
    operations: Seq<OperationModel>,
    units: Seq<UnitModel>,
    states: Seq<(Entity, AssignedTransportState)>,
    unavailable: Seq<Entity>,
    player: PlayerId,
    unit: UnitModel,
) -> bool {
    let island = assigned_island(operations, unit.entity, operations.len() as int);
    let hold_owned = hold_is_campaigns(operations, units, unit, island);
    &&& unit.faction == player
    &&& !unavailable.contains(unit.entity)
    &&& !(is_offshore(unit.unit_type) && unit.fuel == Some(0u32))
    &&& !(is_offshore(unit.unit_type) && (!transport_available(
        unit,
        state_in(states, unit.entity),
        island,
        hold_owned,
    ) || offered_room(unit, hold_owned) == 0))
    &&& !(unit.transporting is Some && island is None)
}

/// The number of the first island that holds the position.
pub open spec fn island_id_at(islands: Seq<Island>, p: GridPosition) -> Option<IslandId> {
    match island_holding(islands, p, 0) {
        Some(i) => Some(islands[i].id),
        None => None,
    }
}

/// A building on the unit's island that the player does not hold and that the unit gets to on its
/// own.
pub open spec fn is_local_prize(
    travel: TravelTable,
    islands: Seq<Island>,
    player: PlayerId,
    unit: UnitModel,
    id: IslandId,
    s: PropertySnapshot,
) -> bool {
    s.property.owner_id != Some(player) && island_id_at(islands, s.position) == Some(id)
        && travel.linked(unit.movement_type, unit.position, s.position)
}

/// The unit can capture something on its island without a transport.
pub open spec fn can_secure(
    travel: TravelTable,
    islands: Seq<Island>,
    properties: Seq<PropertySnapshot>,
    player: PlayerId,
    unit: UnitModel,
) -> bool {
    unit.can_capture && unit.transporting is None && (island_id_at(islands, unit.position) matches Some(
        id,
    ) && exists|i: int|
        0 <= i < properties.len() && is_local_prize(
            travel,
            islands,
            player,
            unit,
            id,
            #[trigger] properties[i],
        ))
}

/// The tiles among the first `n` that the unit gets to on its own.
pub open spec fn reached_tiles(
    travel: TravelTable,
    unit: UnitModel,
    tiles: Seq<GridPosition>,
    n: int,
) -> Seq<GridPosition>
    decreases n,
{
    if n <= 0 {
        Seq::empty()
    } else if travel.linked(unit.movement_type, unit.position, tiles[n - 1]) {
        reached_tiles(travel, unit, tiles, n - 1).push(tiles[n - 1])
    } else {
        reached_tiles(travel, unit, tiles, n - 1)
    }
}

/// The tiles of the first `n` islands that the unit gets to on its own.
pub open spec fn reached_on(
    travel: TravelTable,
    islands: Seq<Island>,
    unit: UnitModel,
    n: int,
) -> Seq<GridPosition>
    decreases n,
{
    if n <= 0 {
        Seq::empty()
    } else {
        reached_on(travel, islands, unit, n - 1) + reached_tiles(
            travel,
            unit,
            islands[n - 1].tiles@,
            islands[n - 1].tiles.len() as int,
        )
    }
}

/// The keys by which tiles are ordered: row, then column.
pub open spec fn tile_keys(tiles: Seq<GridPosition>) -> Seq<Seq<u64>> {
    Seq::new(tiles.len(), |i: int| seq![tiles[i].y as u64, tiles[i].x as u64])
}

/// The tiles that the unit gets to on its own, in reading order.
pub open spec fn reached(travel: TravelTable, islands: Seq<Island>, unit: UnitModel) -> Seq<
    GridPosition,
> {
    let tiles = reached_on(travel, islands, unit, islands.len() as int);
    gather(tiles, sort_order(tile_keys(tiles)))
}

/// What a campaign gets with the unit.
pub open spec fn candidate_of(
    travel: TravelTable,
    islands: Seq<Island>,
    properties: Seq<PropertySnapshot>,
    operations: Seq<OperationModel>,
    units: Seq<UnitModel>,
    player: PlayerId,
    unit: UnitModel,
) -> CandidateModel {
    let island = assigned_island(operations, unit.entity, operations.len() as int);
    let hold_owned = hold_is_campaigns(operations, units, unit, island);
    CandidateModel {
        entity: unit.entity,
        unit_type: unit.unit_type,
        cost: unit.cost,
        can_capture: unit.can_capture,
        can_secure_local_property: can_secure(travel, islands, properties, player, unit),
        available_cargo_slots: offered_room(unit, hold_owned),
        loaded_cargo_entities: if hold_owned {
            unit.loaded
        } else {
            Seq::empty()
        },
        loadable_unit_types: unit.loadable,
        is_transporting: unit.transporting is Some,
        reachable_positions: reached(travel, islands, unit),
        island_id: island_id_at(islands, unit.position),
        assigned_island: island,
    }
}

/// The candidates among the first `n` units.
pub open spec fn candidates_among(
    travel: TravelTable,
    islands: Seq<Island>,
    properties: Seq<PropertySnapshot>,
    operations: Seq<OperationModel>,
    units: Seq<UnitModel>,
    states: Seq<(Entity, AssignedTransportState)>,
    unavailable: Seq<Entity>,
    player: PlayerId,
    n: int,
) -> Seq<CandidateModel>
    decreases n,
{
    if n <= 0 {
        Seq::empty()
    } else {
        let rest = candidates_among(
            travel,
            islands,
            properties,
            operations,
            units,
            states,
            unavailable,
            player,
            n - 1,
        );
        if is_candidate(operations, units, states, unavailable, player, units[n - 1]) {
            rest.push(
                candidate_of(
                    travel,
                    islands,
                    properties,
                    operations,
                    units,
                    player,
                    units[n - 1],
                ),
            )
        } else {
            rest
        }
    }
}

/// A missing island comes before any island.
pub open spec fn id_key(id: Option<IslandId>) -> Seq<u64> {
    match id {
        Some(i) => seq![1u64, i.0 as u64],
        None => seq![0u64, 0u64],
    }
}

/// By assigned island, present island, cost, type and entity.
pub open spec fn candidate_key(registry: MasterDataRegistry, c: CandidateModel) -> Seq<u64> {
    id_key(c.assigned_island) + id_key(c.island_id) + seq![
        c.cost as u64,
        registry.rank(c.unit_type) as u64,
        c.entity.bits,
    ]
}

/// The keys of all candidates.
pub open spec fn candidate_keys(registry: MasterDataRegistry, list: Seq<CandidateModel>) -> Seq<
    Seq<u64>,
> {
    Seq::new(list.len(), |i: int| candidate_key(registry, list[i]))
}

/// The units that campaigns share, in order.
pub open spec fn pool_units(
    travel: TravelTable,
    registry: MasterDataRegistry,
    islands: Seq<Island>,
    properties: Seq<PropertySnapshot>,
    operations: Seq<OperationModel>,
    units: Seq<UnitModel>,
    states: Seq<(Entity, AssignedTransportState)>,
    unavailable: Seq<Entity>,
    player: PlayerId,
) -> Seq<CandidateModel> {
    let list = candidates_among(
        travel,
        islands,
        properties,
        operations,
        units,
        states,
        unavailable,
        player,
        units.len() as int,
    );
    gather(list, sort_order(candidate_keys(registry, list)))
}

fn listed(o: &ExistingCampaignOperation, e: Entity) -> (r: bool)
    ensures
        r == lists(o@, e),
{
    contains_entity(&o.transport_entities, e) || contains_entity(&o.capture_entities, e)
        || contains_entity(&o.combat_entities, e)
}

fn find_assigned_island(operations: &Vec<ExistingCampaignOperation>, e: Entity) -> (r: Option<
    IslandId,
>)
    ensures
        r == assigned_island(operation_models(operations@), e, operations.len() as int),
{
    let ghost all = operation_models(operations@);
    let mut n: usize = operations.len();
    while n > 0
        invariant
            n <= operations.len(),
            all == operation_models(operations@),
            assigned_island(all, e, operations.len() as int) == assigned_island(all, e, n as int),
        decreases n,
    {
        assert(all[n - 1] == operations[n - 1]@);
        if operation_has_live_capability(&operations[n - 1]) && listed(&operations[n - 1], e) {
            return Some(operations[n - 1].island_id);
        }
        n -= 1;
    }
    None
}

fn is_assigned_to(operations: &Vec<ExistingCampaignOperation>, id: IslandId, e: Entity) -> (r: bool)
    ensures
        r == assigned_to(operation_models(operations@), id, e),
{
    let ghost all = operation_models(operations@);
    let mut n: usize = 0;
    while n < operations.len()
        invariant
            n <= operations.len(),
            all == operation_models(operations@),
            forall|i: int|
                0 <= i < n ==> !(is_capable(#[trigger] all[i]) && all[i].island_id == id && lists(
                    all[i],
                    e,
                )),
        decreases operations.len() - n,
    {
        assert(all[n as int] == operations[n as int]@);
        if operation_has_live_capability(&operations[n]) && operations[n].island_id == id && listed(
            &operations[n],
            e,
        ) {
            assert(is_capable(all[n as int]));
            return true;
        }
        n += 1;
    }
    false
}

fn hold_belongs(
    operations: &Vec<ExistingCampaignOperation>,
    units: &Vec<UnitSnapshot>,
    unit: &UnitSnapshot,
    island: Option<IslandId>,
) -> (r: bool)
    ensures
        r == hold_is_campaigns(operation_models(operations@), models(units@), unit@, island),
{
    let id = match island {
        Some(id) => id,
        None => {
            return false;
        },
    };
    let mut n: usize = 0;
    while n < unit.loaded_cargo_entities.len()
        invariant
            n <= unit.loaded_cargo_entities.len(),
            island == Some(id),
            forall|i: int|
                0 <= i < n ==> assigned_to(
                    operation_models(operations@),
                    id,
                    #[trigger] unit@.loaded[i],
                ) && says_carried(models(units@), unit@.loaded[i], unit.entity),
        decreases unit.loaded_cargo_entities.len() - n,
    {
        let e = unit.loaded_cargo_entities[n];
        let carried: bool = match find_unit(units, e) {
            Some(i) => match units[i].transporting {
                Some(t) => t == unit.entity,
                None => false,
            },
            None => false,
        };
        if !carried || !is_assigned_to(operations, id, e) {
            assert(unit@.loaded[n as int] == e);
            return false;
        }
        n += 1;
    }
    true
}

fn same_island(a: Option<IslandId>, b: Option<IslandId>) -> (r: bool)
    ensures
        r == (a is Some && a == b),
{
    match a {
        Some(x) => match b {
            Some(y) => x == y,
            None => false,
        },
        None => false,
    }
}

fn examine_candidate(
    travel: &TravelTable,
    islands: &IslandMap,
    properties: &Vec<PropertySnapshot>,
    operations: &Vec<ExistingCampaignOperation>,
    units: &Vec<UnitSnapshot>,
    states: &Vec<(Entity, AssignedTransportState)>,
    unavailable: &Vec<Entity>,
    player: PlayerId,
    unit: &UnitSnapshot,
) -> (r: Option<CampaignUnitCandidate>)
    ensures
        r is Some <==> is_candidate(
            operation_models(operations@),
            models(units@),
            states@,
            unavailable@,
            player,
            unit@,
        ),
        r matches Some(c) ==> c@ == candidate_of(
            *travel,
            islands.islands@,
            properties@,
            operation_models(operations@),
            models(units@),
            player,
            unit@,
        ),
{
    if unit.faction != player {
        return None;
    }
    let island = find_assigned_island(operations, unit.entity);
    assert(operation_models(operations@).len() == operations.len());
    let hold_owned: bool = hold_belongs(operations, units, unit, island);
    let available: bool = match find_state(states, unit.entity) {
        None => unit.loaded_cargo_entities.len() == 0,
        Some(AssignedTransportState::Forming(target, assigned)) => same_island(target, island)
            && assigned && hold_owned,
        Some(AssignedTransportState::Phase(phase, target, assigned)) => is_live_transport_phase(
            phase,
        ) && same_island(target, island) && assigned && hold_owned,
        Some(AssignedTransportState::Other) => false,
    };
    let offshore: bool = unit.stats.unit_type == UnitType::TransportHelicopter
        || unit.stats.unit_type == UnitType::Lander;
    let carried: u32 = if hold_owned {
        unit.loaded_cargo_entities.len() as u32
    } else {
        0
    };
    let room: u32 = unit.free_cargo_slots.saturating_add(carried);
    let dry: bool = match unit.fuel {
        Some(fuel) => fuel == 0,
        None => false,
    };
    if contains_entity(unavailable, unit.entity) || (offshore && dry) || (offshore && (!available
        || room == 0)) || (unit.transporting.is_some() && island.is_none()) {
        return None;
    }
    let island_id: Option<IslandId> = match find_island_holding(islands, unit.position) {
        Some(i) => Some(islands.islands[i].id),
        None => None,
    };
    let can_secure_local_property: bool = secures(
        travel,
        islands,
        properties,
        player,
        unit,
        island_id,
    );
    let reachable_positions = collect_reached(travel, islands, unit);
    let loaded_cargo_entities = if hold_owned {
        let list = unit.loaded_cargo_entities.clone();
        assert(list@ =~= unit.loaded_cargo_entities@);
        list
    } else {
        Vec::new()
    };
    let loadable_unit_types = unit.stats.loadable_unit_types.clone();
    assert(loadable_unit_types@ =~= unit.stats.loadable_unit_types@);
    Some(
        CampaignUnitCandidate {
            entity: unit.entity,
            unit_type: unit.stats.unit_type,
            cost: unit.stats.cost,
            can_capture: unit.stats.can_capture,
            can_secure_local_property,
            available_cargo_slots: room,
            loaded_cargo_entities,
            loadable_unit_types,
            is_transporting: unit.transporting.is_some(),
            reachable_positions,
            island_id,
            assigned_island: island,
        },
    )
}

fn secures(
    travel: &TravelTable,
    islands: &IslandMap,
    properties: &Vec<PropertySnapshot>,
    player: PlayerId,
    unit: &UnitSnapshot,
    island_id: Option<IslandId>,
) -> (r: bool)
    requires
        island_id == island_id_at(islands.islands@, unit.position),
    ensures
        r == can_secure(*travel, islands.islands@, properties@, player, unit@),
{
    if !unit.stats.can_capture || unit.transporting.is_some() {
        return false;
    }
    let id = match island_id {
        Some(id) => id,
        None => {
            return false;
        },
    };
    let mut n: usize = 0;
    while n < properties.len()
        invariant
            n <= properties.len(),
            unit.stats.can_capture,
            unit.transporting is None,
            island_id_at(islands.islands@, unit.position) == Some(id),
            forall|i: int|
                0 <= i < n ==> !is_local_prize(
                    *travel,
                    islands.islands@,
                    player,
                    unit@,
                    id,
                    #[trigger] properties[i],
                ),
        decreases properties.len() - n,
    {
        let s = properties[n];
        let own: bool = match s.property.owner_id {
            Some(owner) => owner == player,
            None => false,
        };
        let here: bool = match find_island_holding(islands, s.position) {
            Some(i) => islands.islands[i].id == id,
            None => false,
        };
        if !own && here && travel.is_terrain_reachable(
            unit.stats.movement_type,
            unit.position,
            s.position,
        ) {
            assert(is_local_prize(
                *travel,
                islands.islands@,
                player,
                unit@,
                id,
                properties@[n as int],
            ));
            return true;
        }
        n += 1;
    }
    false
}

fn collect_reached(travel: &TravelTable, islands: &IslandMap, unit: &UnitSnapshot) -> (r: Vec<
    GridPosition,
>)
    ensures
        r@ == reached(*travel, islands.islands@, unit@),
{
    let mut tiles: Vec<GridPosition> = Vec::new();
    let mut n: usize = 0;
    while n < islands.islands.len()
        invariant
            n <= islands.islands.len(),
            tiles@ == reached_on(*travel, islands.islands@, unit@, n as int),
        decreases islands.islands.len() - n,
    {
        let ghost before = tiles@;
        let ghost own = islands.islands[n as int].tiles@;
        let mut k: usize = 0;
        while k < islands.islands[n].tiles.len()
            invariant
                n < islands.islands.len(),
                own == islands.islands[n as int].tiles@,
                k <= own.len(),
                tiles@ == before + reached_tiles(*travel, unit@, own, k as int),
            decreases own.len() - k,
        {
            let tile = islands.islands[n].tiles[k];
            if travel.is_terrain_reachable(unit.stats.movement_type, unit.position, tile) {
                tiles.push(tile);
            }
            k += 1;
        }
        n += 1;
    }
    sort_tiles(&tiles)
}

fn sort_tiles(tiles: &Vec<GridPosition>) -> (r: Vec<GridPosition>)
    ensures
        r@ == gather(tiles@, sort_order(tile_keys(tiles@))),
{
    let mut keys: Vec<Vec<u64>> = Vec::new();
    let mut n: usize = 0;
    while n < tiles.len()
        invariant
            n <= tiles.len(),
            keys.len() == n,
            forall|i: int|
                0 <= i < n ==> (#[trigger] keys[i])@ == seq![tiles[i].y as u64, tiles[i].x as u64],
        decreases tiles.len() - n,
    {
        let mut key: Vec<u64> = Vec::new();
        key.push(tiles[n].y as u64);
        key.push(tiles[n].x as u64);
        assert(key@ =~= seq![tiles[n as int].y as u64, tiles[n as int].x as u64]);
        keys.push(key);
        n += 1;
    }
    assert(key_views(keys@) =~= tile_keys(tiles@));
    let order = stable_order(&keys);
    let mut r: Vec<GridPosition> = Vec::new();
    let mut k: usize = 0;
    while k < order.len()
        invariant
            k <= order.len(),
            order.len() == tiles.len(),
            forall|i: int| 0 <= i < order.len() ==> #[trigger] order[i] < tiles.len(),
            r.len() == k,
            forall|i: int| 0 <= i < k ==> #[trigger] r[i] == tiles[order[i] as int],
        decreases order.len() - k,
    {
        r.push(tiles[order[k]]);
        k += 1;
    }
    proof {
        lemma_sort_prefix(tile_keys(tiles@), tiles.len() as int);
        assert(r@ =~= gather(tiles@, sort_order(tile_keys(tiles@))));
    }
    r
}

fn push_id(key: &mut Vec<u64>, id: Option<IslandId>)
    ensures
        final(key)@ == old(key)@ + id_key(id),
{
    match id {
        Some(i) => {
            key.push(1);
            key.push(i.0 as u64);
        },
        None => {
            key.push(0);
            key.push(0);
        },
    }
    assert(key@ =~= old(key)@ + id_key(id));
}

fn key_of_candidate(registry: &MasterDataRegistry, c: &CampaignUnitCandidate) -> (r: Vec<u64>)
    ensures
        r@ == candidate_key(*registry, c@),
{
    let mut r: Vec<u64> = Vec::new();
    push_id(&mut r, c.assigned_island);
    push_id(&mut r, c.island_id);
    r.push(c.cost as u64);
    r.push(registry.campaign_unit_type_rank(c.unit_type) as u64);
    r.push(c.entity.bits);
    assert(r@ =~= candidate_key(*registry, c@));
    r
}

/// The units and funds that campaigns share. Units without a goal, units on their way home, units
/// that carry what is not theirs to carry, and transports without fuel or room are left out.
pub fn collect_campaign_resource_pool(
    player_id: PlayerId,
    scene: &CampaignScene,
    properties: &Vec<PropertySnapshot>,
    units: &Vec<UnitSnapshot>,
    operations: &Vec<ExistingCampaignOperation>,
    assigned_transport_phases: &Vec<(Entity, AssignedTransportState)>,
    unavailable_entities: &Vec<Entity>,
    available_funds: u32,
) -> (r: CampaignResourcePool)
    ensures
        r.available_funds == available_funds,
        candidate_models(r.units@) == pool_units(
            scene.travel,
            scene.registry,
            scene.islands.islands@,
            properties@,
            operation_models(operations@),
            models(units@),
            assigned_transport_phases@,
            unavailable_entities@,
            player_id,
        ),
{
    let ghost all = models(units@);
    let ghost ops = operation_models(operations@);
    let mut raw: Vec<CampaignUnitCandidate> = Vec::new();
    let mut keys: Vec<Vec<u64>> = Vec::new();
    let mut n: usize = 0;
    while n < units.len()
        invariant
            n <= units.len(),
            all == models(units@),
            ops == operation_models(operations@),
            keys.len() == raw.len(),
            candidate_models(raw@) == candidates_among(
                scene.travel,
                scene.islands.islands@,
                properties@,
                ops,
                all,
                assigned_transport_phases@,
                unavailable_entities@,
                player_id,
                n as int,
            ),
            forall|i: int|
                0 <= i < keys.len() ==> (#[trigger] keys[i])@ == candidate_key(
                    scene.registry,
                    raw[i]@,
                ),
        decreases units.len() - n,
    {
        assert(all[n as int] == units[n as int]@);
        let ghost before = raw@;
        if let Some(c) = examine_candidate(
            &scene.travel,
            &scene.islands,
            properties,
            operations,
            units,
            assigned_transport_phases,
            unavailable_entities,
            player_id,
            &units[n],
        ) {
            keys.push(key_of_candidate(&scene.registry, &c));
            raw.push(c);
            assert(candidate_models(raw@) =~= candidate_models(before).push(c@));
        }
        n += 1;
    }
    let ghost list = candidate_models(raw@);
    assert(key_views(keys@) =~= candidate_keys(scene.registry, list)) by {
        assert forall|i: int| 0 <= i < keys.len() implies key_views(keys@)[i] == candidate_keys(
            scene.registry,
            list,
        )[i] by {
            assert(list[i] == raw@[i]@);
        }
    }
    let order = stable_order(&keys);
    let mut sorted: Vec<CampaignUnitCandidate> = Vec::new();
    let mut k: usize = 0;
    while k < order.len()
        invariant
            k <= order.len(),
            order.len() == raw.len(),
            list == candidate_models(raw@),
            forall|i: int| 0 <= i < order.len() ==> #[trigger] order[i] < raw.len(),
            sorted.len() == k,
            forall|i: int| 0 <= i < k ==> (#[trigger] sorted[i])@ == list[order[i] as int],
        decreases order.len() - k,
    {
        sorted.push(raw[order[k]].duplicate());
        k += 1;
    }
    proof {
        lemma_sort_prefix(candidate_keys(scene.registry, list), list.len() as int);
        assert(candidate_models(sorted@) =~= gather(
            list,
            sort_order(candidate_keys(scene.registry, list)),
        ));
    }
    CampaignResourcePool { available_funds, units: sorted }
}

proof fn lemma_candidates_available(
    travel: TravelTable,
    islands: Seq<Island>,
    properties: Seq<PropertySnapshot>,
    operations: Seq<OperationModel>,
    units: Seq<UnitModel>,
    states: Seq<(Entity, AssignedTransportState)>,
    unavailable: Seq<Entity>,
    player: PlayerId,
    n: int,
    k: int,
)
    requires
        0 <= n <= units.len(),
        0 <= k < candidates_among(
            travel,
            islands,
            properties,
            operations,
            units,
            states,
            unavailable,
            player,
            n,
        ).len(),
    ensures
        !unavailable.contains(
            candidates_among(
                travel,
                islands,
                properties,
                operations,
                units,
                states,
                unavailable,
                player,
                n,
            )[k].entity,
        ),
    decreases n,
{
    if n > 0 {
        let rest = candidates_among(
            travel,
            islands,
            properties,
            operations,
            units,
            states,
            unavailable,
            player,
            n - 1,
        );
        if k < rest.len() {
            lemma_candidates_available(
                travel,
                islands,
                properties,
                operations,
                units,
                states,
                unavailable,
                player,
                n - 1,
                k,
            );
        }
    }
}

/// No unit that is reserved elsewhere is shared between campaigns.
pub proof fn law_pool_spares_unavailable_units(
    travel: TravelTable,
    registry: MasterDataRegistry,
    islands: Seq<Island>,
    properties: Seq<PropertySnapshot>,
    operations: Seq<OperationModel>,
    units: Seq<UnitModel>,
    states: Seq<(Entity, AssignedTransportState)>,
    unavailable: Seq<Entity>,
    player: PlayerId,
    k: int,
)
    requires
        0 <= k < pool_units(
            travel,
            registry,
            islands,
            properties,
            operations,
            units,
            states,
            unavailable,
            player,
        ).len(),
    ensures
        !unavailable.contains(
            pool_units(
                travel,
                registry,
                islands,
                properties,
                operations,
                units,
                states,
                unavailable,
                player,
            )[k].entity,
        ),
{
    let list = candidates_among(
        travel,
        islands,
        properties,
        operations,
        units,
        states,
        unavailable,
        player,
        units.len() as int,
    );
    let keys = candidate_keys(registry, list);
    lemma_sort_prefix(keys, keys.len() as int);
    let i = sort_order(keys)[k];
    assert(0 <= i < keys.len());
    lemma_candidates_available(
        travel,
        islands,
        properties,
        operations,
        units,
        states,
        unavailable,
        player,
        units.len() as int,
        i,
    );
}

} // verus!
