//! What holds of the units that campaigns share.
use crate::campaign_laws::{lemma_stands_on, stands_on};
use crate::campaign_pool::{
    assigned_island, assigned_to, can_secure, candidate_key, candidate_keys, candidate_of,
    candidates_among, hold_is_campaigns, is_candidate, is_local_prize, island_id_at, lists,
    pool_units, reached, reached_on, reached_tiles, tile_keys,
};
use crate::entity::Entity;
use crate::grid::{read_before, GridPosition};
use crate::island_campaign::{CandidateModel, OperationModel};
use crate::islands::{Island, IslandId};
use crate::master_data::MasterDataRegistry;
use crate::missions::TransportPhase;
use crate::operations::{state_in, unit_of, AssignedTransportState};
use crate::order::{
    lemma_gathered, lemma_lex_by, lemma_never_before, lemma_sort_prefix, sort_order, stands_before,
};
use crate::snapshots::{PropertySnapshot, UnitModel};
use crate::travel::TravelTable;
use crate::units::{PlayerId, UnitType};
use vstd::prelude::*;

verus! {

/// The campaign has something to work with: units that capture or fight, or a transport that forms
/// or is on its way out.
pub open spec fn has_means(o: OperationModel) -> bool {
    ||| o.capture_entities.len() > 0
    ||| o.combat_entities.len() > 0
    ||| o.transport_entities.len() > 0 && (o.is_forming || (o.transport_phase is Some
        && o.transport_phase->0 != TransportPhase::Return))
}

/// The campaign has something to work with and the unit is one of its units.
pub open spec fn employs(o: OperationModel, e: Entity) -> bool {
    has_means(o) && (o.capture_entities.contains(e) || o.combat_entities.contains(e)
        || o.transport_entities.contains(e))
}

/// A unit belongs to the last campaign that employs it.
pub proof fn law_unit_belongs_to_its_campaign(
    operations: Seq<OperationModel>,
    e: Entity,
    n: int,
)
    requires
        0 <= n <= operations.len(),
    ensures
        match assigned_island(operations, e, n) {
            Some(id) => exists|k: int|
                0 <= k < n && employs(#[trigger] operations[k], e) && operations[k].island_id == id
                    && forall|j: int| k < j < n ==> !employs(#[trigger] operations[j], e),
            None => forall|k: int| 0 <= k < n ==> !employs(#[trigger] operations[k], e),
        },
    decreases n,
{
    if n > 0 {
        law_unit_belongs_to_its_campaign(operations, e, n - 1);
        assert(employs(operations[n - 1], e) <==> crate::campaign_requirements::is_capable(
            operations[n - 1],
        ) && lists(operations[n - 1], e));
        if !employs(operations[n - 1], e) && assigned_island(operations, e, n - 1) is Some {
            let id = assigned_island(operations, e, n - 1)->0;
            let k = choose|k: int|
                0 <= k < n - 1 && employs(#[trigger] operations[k], e) && operations[k].island_id
                    == id && forall|j: int| k < j < n - 1 ==> !employs(#[trigger] operations[j], e);
            assert(employs(operations[k], e));
        }
    }
}

/// All that the unit carries says so and is employed by campaigns for the same island.
pub open spec fn carries_its_own(
    operations: Seq<OperationModel>,
    units: Seq<UnitModel>,
    unit: UnitModel,
    island: Option<IslandId>,
) -> bool {
    island is Some && forall|i: int|
        0 <= i < unit.loaded.len() ==> {
            let c = #[trigger] unit.loaded[i];
            &&& unit_of(units, c) is Some
            &&& unit_of(units, c)->0.transporting == Some(unit.entity)
            &&& exists|k: int|
                0 <= k < operations.len() && employs(#[trigger] operations[k], c)
                    && Some(operations[k].island_id) == island
        }
}

proof fn lemma_carries(
    operations: Seq<OperationModel>,
    units: Seq<UnitModel>,
    unit: UnitModel,
    island: Option<IslandId>,
)
    ensures
        hold_is_campaigns(operations, units, unit, island) == carries_its_own(
            operations,
            units,
            unit,
            island,
        ),
{
    if island is Some {
        let id = island->0;
        assert forall|c: Entity| #[trigger]
            assigned_to(operations, id, c) <==> exists|k: int|
                0 <= k < operations.len() && employs(#[trigger] operations[k], c)
                    && Some(operations[k].island_id) == island by {
            if assigned_to(operations, id, c) {
                let k = choose|k: int|
                    0 <= k < operations.len() && crate::campaign_requirements::is_capable(
                        #[trigger] operations[k],
                    ) && operations[k].island_id == id && lists(operations[k], c);
                assert(employs(operations[k], c));
            }
            if exists|k: int|
                0 <= k < operations.len() && employs(#[trigger] operations[k], c)
                    && Some(operations[k].island_id) == island {
                let k = choose|k: int|
                    0 <= k < operations.len() && employs(#[trigger] operations[k], c)
                        && Some(operations[k].island_id) == island;
                assert(crate::campaign_requirements::is_capable(operations[k]));
            }
        }
        if hold_is_campaigns(operations, units, unit, island) {
            assert forall|i: int| 0 <= i < unit.loaded.len() implies {
                let c = #[trigger] unit.loaded[i];
                &&& unit_of(units, c) is Some
                &&& unit_of(units, c)->0.transporting == Some(unit.entity)
                &&& exists|k: int|
                    0 <= k < operations.len() && employs(#[trigger] operations[k], c)
                        && Some(operations[k].island_id) == island
            } by {
                assert(assigned_to(operations, id, unit.loaded[i]));
            }
        }
        if carries_its_own(operations, units, unit, island) {
            assert forall|i: int| 0 <= i < unit.loaded.len() implies assigned_to(
                operations,
                id,
                #[trigger] unit.loaded[i],
            ) by {}
        }
    }
}

/// The room that the unit offers: what is free and, if its cargo is its campaign's own, what that
/// takes.
pub open spec fn room_with(unit: UnitModel, own_cargo: bool) -> int {
    let all = if own_cargo {
        unit.free_cargo_slots + unit.loaded.len()
    } else {
        unit.free_cargo_slots as int
    };
    if all > u32::MAX {
        u32::MAX as int
    } else {
        all
    }
}

/// The duty of the transport leaves it to the campaign for the island: it has none and carries
/// nothing, or it takes its squad's and its campaign's own cargo to that island.
pub open spec fn is_left_to(
    unit: UnitModel,
    state: Option<AssignedTransportState>,
    island: Option<IslandId>,
    own_cargo: bool,
) -> bool {
    match state {
        None => unit.loaded.len() == 0,
        Some(AssignedTransportState::Forming(target, own)) => own && own_cargo && island is Some
            && target == island,
        Some(AssignedTransportState::Phase(phase, target, own)) => own && own_cargo && island is Some
            && target == island && phase != TransportPhase::Return,
        Some(AssignedTransportState::Other) => false,
    }
}

/// Campaigns share the player's units that are not reserved elsewhere. A helicopter or lander must
/// have fuel and room, and its duty must leave it to its campaign. A carried unit is shared only
/// if a campaign employs it already.
pub proof fn law_shared_units_are_free(
    operations: Seq<OperationModel>,
    units: Seq<UnitModel>,
    states: Seq<(Entity, AssignedTransportState)>,
    unavailable: Seq<Entity>,
    player: PlayerId,
    unit: UnitModel,
)
    requires
        unit.loaded.len() <= u32::MAX,
    ensures
        ({
            let island = assigned_island(operations, unit.entity, operations.len() as int);
            let own_cargo = carries_its_own(operations, units, unit, island);
            let sea = unit.unit_type == UnitType::Lander || unit.unit_type
                == UnitType::TransportHelicopter;
            is_candidate(operations, units, states, unavailable, player, unit) <==> {
                &&& unit.faction == player
                &&& forall|i: int|
                    0 <= i < unavailable.len() ==> #[trigger] unavailable[i] != unit.entity
                &&& unit.transporting is None || island is Some
                &&& sea ==> unit.fuel != Some(0u32) && room_with(unit, own_cargo) > 0 && is_left_to(
                    unit,
                    state_in(states, unit.entity),
                    island,
                    own_cargo,
                )
            }
        }),
{
    let island = assigned_island(operations, unit.entity, operations.len() as int);
    lemma_carries(operations, units, unit, island);
    assert(unavailable.contains(unit.entity) <==> !(forall|i: int|
        0 <= i < unavailable.len() ==> #[trigger] unavailable[i] != unit.entity));
}

/// A unit secures its island if it captures, is not carried, and gets by itself to a building on
/// the same island that the player does not hold.
pub proof fn law_captors_secure_their_island(
    travel: TravelTable,
    islands: Seq<Island>,
    properties: Seq<PropertySnapshot>,
    player: PlayerId,
    unit: UnitModel,
)
    ensures
        can_secure(travel, islands, properties, player, unit) <==> {
            &&& unit.can_capture
            &&& unit.transporting is None
            &&& exists|i: int, id: IslandId|
                {
                    &&& 0 <= i < properties.len()
                    &&& (#[trigger] properties[i]).property.owner_id != Some(player)
                    &&& #[trigger] stands_on(islands, unit.position, id)
                    &&& stands_on(islands, properties[i].position, id)
                    &&& travel.linked(unit.movement_type, unit.position, properties[i].position)
                }
        },
{
    if can_secure(travel, islands, properties, player, unit) {
        let id = island_id_at(islands, unit.position)->0;
        let i = choose|i: int|
            0 <= i < properties.len() && is_local_prize(
                travel,
                islands,
                player,
                unit,
                id,
                #[trigger] properties[i],
            );
        lemma_stands_on(islands, unit.position, id, 0);
        lemma_stands_on(islands, properties[i].position, id, 0);
        assert(properties[i].property.owner_id != Some(player) && stands_on(
            islands,
            unit.position,
            id,
        ));
    }
    if unit.can_capture && unit.transporting is None && exists|i: int, id: IslandId|
        {
            &&& 0 <= i < properties.len()
            &&& (#[trigger] properties[i]).property.owner_id != Some(player)
            &&& #[trigger] stands_on(islands, unit.position, id)
            &&& stands_on(islands, properties[i].position, id)
            &&& travel.linked(unit.movement_type, unit.position, properties[i].position)
        } {
        let (i, id) = choose|i: int, id: IslandId|
            {
                &&& 0 <= i < properties.len()
                &&& (#[trigger] properties[i]).property.owner_id != Some(player)
                &&& #[trigger] stands_on(islands, unit.position, id)
                &&& stands_on(islands, properties[i].position, id)
                &&& travel.linked(unit.movement_type, unit.position, properties[i].position)
            };
        lemma_stands_on(islands, unit.position, id, 0);
        lemma_stands_on(islands, properties[i].position, id, 0);
        assert(is_local_prize(travel, islands, player, unit, id, properties[i]));
    }
}

proof fn lemma_reached_tiles(
    travel: TravelTable,
    unit: UnitModel,
    tiles: Seq<GridPosition>,
    n: int,
    p: GridPosition,
)
    requires
        0 <= n <= tiles.len(),
    ensures
        reached_tiles(travel, unit, tiles, n).contains(p) <==> travel.linked(
            unit.movement_type,
            unit.position,
            p,
        ) && exists|i: int| 0 <= i < n && #[trigger] tiles[i] == p,
    decreases n,
{
    let all = reached_tiles(travel, unit, tiles, n);
    if n > 0 {
        lemma_reached_tiles(travel, unit, tiles, n - 1, p);
        let rest = reached_tiles(travel, unit, tiles, n - 1);
        if all.len() > rest.len() {
            assert(all[rest.len() as int] == tiles[n - 1]);
            if rest.contains(p) {
                let i = choose|i: int| 0 <= i < rest.len() && rest[i] == p;
                assert(all[i] == p);
            }
            if all.contains(p) {
                let i = choose|i: int| 0 <= i < all.len() && all[i] == p;
                if i < rest.len() {
                    assert(rest[i] == p);
                }
            }
        }
    }
}

proof fn lemma_reached_on(
    travel: TravelTable,
    islands: Seq<Island>,
    unit: UnitModel,
    n: int,
    p: GridPosition,
)
    requires
        0 <= n <= islands.len(),
    ensures
        reached_on(travel, islands, unit, n).contains(p) <==> travel.linked(
            unit.movement_type,
            unit.position,
            p,
        ) && exists|h: int| 0 <= h < n && (#[trigger] islands[h]).tiles@.contains(p),
    decreases n,
{
    let all = reached_on(travel, islands, unit, n);
    if n > 0 {
        lemma_reached_on(travel, islands, unit, n - 1, p);
        let rest = reached_on(travel, islands, unit, n - 1);
        let tiles = islands[n - 1].tiles@;
        let more = reached_tiles(travel, unit, tiles, tiles.len() as int);
        lemma_reached_tiles(travel, unit, tiles, tiles.len() as int, p);
        assert(tiles.contains(p) <==> exists|i: int| 0 <= i < tiles.len() && #[trigger] tiles[i]
            == p);
        if rest.contains(p) {
            let i = choose|i: int| 0 <= i < rest.len() && rest[i] == p;
            assert(all[i] == p);
        }
        if more.contains(p) {
            let i = choose|i: int| 0 <= i < more.len() && more[i] == p;
            assert(all[rest.len() + i] == p);
        }
        if all.contains(p) {
            let i = choose|i: int| 0 <= i < all.len() && all[i] == p;
            if i < rest.len() {
                assert(rest[i] == p);
            } else {
                assert(more[i - rest.len()] == p);
            }
        }
    }
}

/// The tiles that a unit gets to are exactly the tiles of islands to which it has a way, in reading
/// order.
pub proof fn law_unit_gets_where_it_has_a_way(
    travel: TravelTable,
    islands: Seq<Island>,
    unit: UnitModel,
    p: GridPosition,
)
    ensures
        ({
            let r = reached(travel, islands, unit);
            &&& r.contains(p) <==> travel.linked(unit.movement_type, unit.position, p) && exists|
                h: int,
            |
                0 <= h < islands.len() && (#[trigger] islands[h]).tiles@.contains(p)
            &&& forall|i: int, j: int|
                0 <= i < j < r.len() ==> !read_before(#[trigger] r[j], #[trigger] r[i])
        }),
{
    let tiles = reached_on(travel, islands, unit, islands.len() as int);
    let keys = tile_keys(tiles);
    let r = reached(travel, islands, unit);
    lemma_reached_on(travel, islands, unit, islands.len() as int, p);
    lemma_gathered(tiles, keys, p);
    lemma_sort_prefix(keys, keys.len() as int);
    let order = sort_order(keys);
    assert forall|i: int, j: int| 0 <= i < j < r.len() implies !read_before(
        #[trigger] r[j],
        #[trigger] r[i],
    ) by {
        assert(stands_before(keys, order[i], order[j]));
        lemma_never_before(keys, order[i], order[j]);
        let x = keys[order[j]];
        let y = keys[order[i]];
        if read_before(r[j], r[i]) {
            lemma_lex_by(
                x,
                y,
                if x[0] != y[0] {
                    0
                } else {
                    1
                },
            );
        }
    }
}

/// What campaigns know of a shared unit is what holds of it.
pub proof fn law_shared_unit_is_described_truly(
    travel: TravelTable,
    islands: Seq<Island>,
    properties: Seq<PropertySnapshot>,
    operations: Seq<OperationModel>,
    units: Seq<UnitModel>,
    player: PlayerId,
    unit: UnitModel,
    id: IslandId,
)
    requires
        unit.loaded.len() <= u32::MAX,
    ensures
        ({
            let c = candidate_of(travel, islands, properties, operations, units, player, unit);
            let island = assigned_island(operations, unit.entity, operations.len() as int);
            let own_cargo = carries_its_own(operations, units, unit, island);
            &&& c.entity == unit.entity && c.unit_type == unit.unit_type && c.cost == unit.cost
            &&& c.can_capture == unit.can_capture
            &&& c.is_transporting <==> unit.transporting is Some
            &&& c.loadable_unit_types == unit.loadable
            &&& c.assigned_island == island
            &&& c.available_cargo_slots == room_with(unit, own_cargo)
            &&& own_cargo ==> c.loaded_cargo_entities == unit.loaded
            &&& !own_cargo ==> c.loaded_cargo_entities.len() == 0
            &&& c.island_id == Some(id) <==> stands_on(islands, unit.position, id)
            &&& c.can_secure_local_property == can_secure(
                travel,
                islands,
                properties,
                player,
                unit,
            )
            &&& c.reachable_positions == reached(travel, islands, unit)
        }),
{
    let island = assigned_island(operations, unit.entity, operations.len() as int);
    lemma_carries(operations, units, unit, island);
    lemma_stands_on(islands, unit.position, id, 0);
}

proof fn lemma_candidates(
    travel: TravelTable,
    islands: Seq<Island>,
    properties: Seq<PropertySnapshot>,
    operations: Seq<OperationModel>,
    units: Seq<UnitModel>,
    states: Seq<(Entity, AssignedTransportState)>,
    unavailable: Seq<Entity>,
    player: PlayerId,
    n: int,
    c: CandidateModel,
)
    requires
        0 <= n <= units.len(),
    ensures
        candidates_among(
            travel,
            islands,
            properties,
            operations,
            units,
            states,
            unavailable,
            player,
            n,
        ).contains(c) <==> exists|k: int|
            {
                &&& 0 <= k < n
                &&& is_candidate(
                    operations,
                    units,
                    states,
                    unavailable,
                    player,
                    #[trigger] units[k],
                )
                &&& c == candidate_of(
                    travel,
                    islands,
                    properties,
                    operations,
                    units,
                    player,
                    units[k],
                )
            },
    decreases n,
{
    let all = candidates_among(
        travel,
        islands,
        properties,
        operations,
        units,
        states,
        unavailable,
        player,
        n,
    );
    if n > 0 {
        lemma_candidates(
            travel,
            islands,
            properties,
            operations,
            units,
            states,
            unavailable,
            player,
            n - 1,
            c,
        );
        let rest = candidates_among(
            travel,
            islands,
            properties,
            operations,
            units,
            states,
            unavailable,
            player,
            n - 1,
        );
        if rest.contains(c) {
            let k = choose|k: int|
                {
                    &&& 0 <= k < n - 1
                    &&& is_candidate(
                        operations,
                        units,
                        states,
                        unavailable,
                        player,
                        #[trigger] units[k],
                    )
                    &&& c == candidate_of(
                        travel,
                        islands,
                        properties,
                        operations,
                        units,
                        player,
                        units[k],
                    )
                };
            assert(is_candidate(operations, units, states, unavailable, player, units[k]));
            let i = choose|i: int| 0 <= i < rest.len() && rest[i] == c;
            assert(all[i] == c);
        }
        if all.len() > rest.len() {
            assert(all[rest.len() as int] == candidate_of(
                travel,
                islands,
                properties,
                operations,
                units,
                player,
                units[n - 1],
            ));
        }
        if all.contains(c) {
            let i = choose|i: int| 0 <= i < all.len() && all[i] == c;
            if i < rest.len() {
                assert(rest[i] == c);
            }
        }
    }
}

/// No island comes before an island, and of two the lesser number.
pub open spec fn is_lesser_island(a: Option<IslandId>, b: Option<IslandId>) -> bool {
    b is Some && (a is None || (a->0).0 < (b->0).0)
}

/// The first unit comes earlier: by the island of its campaign, then by where it is, then by price,
/// then by type, then by its number.
pub open spec fn is_shared_earlier(
    registry: MasterDataRegistry,
    a: CandidateModel,
    b: CandidateModel,
) -> bool {
    if a.assigned_island != b.assigned_island {
        is_lesser_island(a.assigned_island, b.assigned_island)
    } else if a.island_id != b.island_id {
        is_lesser_island(a.island_id, b.island_id)
    } else if a.cost != b.cost {
        a.cost < b.cost
    } else if registry.rank(a.unit_type) != registry.rank(b.unit_type) {
        registry.rank(a.unit_type) < registry.rank(b.unit_type)
    } else {
        a.entity.bits < b.entity.bits
    }
}

/// Campaigns share every unit that is free for them, no other, and in order.
pub proof fn law_all_free_units_are_shared_in_order(
    travel: TravelTable,
    registry: MasterDataRegistry,
    islands: Seq<Island>,
    properties: Seq<PropertySnapshot>,
    operations: Seq<OperationModel>,
    units: Seq<UnitModel>,
    states: Seq<(Entity, AssignedTransportState)>,
    unavailable: Seq<Entity>,
    player: PlayerId,
    c: CandidateModel,
)
    ensures
        ({
            let pool = pool_units(
                travel,
                registry,
                islands,
                properties,
                operations,
                units,
                states,
                unavailable,
                player,
            );
            &&& pool.contains(c) <==> exists|k: int|
                {
                    &&& 0 <= k < units.len()
                    &&& is_candidate(
                        operations,
                        units,
                        states,
                        unavailable,
                        player,
                        #[trigger] units[k],
                    )
                    &&& c == candidate_of(
                        travel,
                        islands,
                        properties,
                        operations,
                        units,
                        player,
                        units[k],
                    )
                }
            &&& forall|i: int, j: int|
                0 <= i < j < pool.len() ==> !is_shared_earlier(
                    registry,
                    #[trigger] pool[j],
                    #[trigger] pool[i],
                )
        }),
{
    let list = candidates_among(
        travel,
        islands,
        properties,
        operations,
        units,
        states,
        unavailable,
        player,
        units.len() as int,
    );
    let pool = pool_units(
        travel,
        registry,
        islands,
        properties,
        operations,
        units,
        states,
        unavailable,
        player,
    );
    lemma_candidates(
        travel,
        islands,
        properties,
        operations,
        units,
        states,
        unavailable,
        player,
        units.len() as int,
        c,
    );
    let keys = candidate_keys(registry, list);
    lemma_gathered(list, keys, c);
    lemma_sort_prefix(keys, keys.len() as int);
    let order = sort_order(keys);
    assert forall|i: int, j: int| 0 <= i < j < pool.len() implies !is_shared_earlier(
        registry,
        #[trigger] pool[j],
        #[trigger] pool[i],
    ) by {
        assert(stands_before(keys, order[i], order[j]));
        lemma_never_before(keys, order[i], order[j]);
        let x = candidate_key(registry, pool[j]);
        let y = candidate_key(registry, pool[i]);
        assert(keys[order[j]] == x && keys[order[i]] == y);
        if is_shared_earlier(registry, pool[j], pool[i]) {
            lemma_lex_by(
                x,
                y,
                if x[0] != y[0] {
                    0
                } else if x[1] != y[1] {
                    1
                } else if x[2] != y[2] {
                    2
                } else if x[3] != y[3] {
                    3
                } else if x[4] != y[4] {
                    4
                } else if x[5] != y[5] {
                    5
                } else {
                    6
                },
            );
        }
    }
}

} // verus!
