//! What holds of the agenda of island campaigns as a whole.
use crate::campaign_analysis::{
    agenda_for, capable_operation, funds_of, is_taken_list, island_candidate, island_candidates,
    CampaignAgenda,
};
use crate::campaign_facts::{
    blank_facts, builds_some, facts_of, is_open_neutral, island_sites, number_keys, own_among_sites,
    own_sites_of, sites_of, standing, with_cargoes, with_sites, with_transport, with_units,
    CampaignScene,
};
use crate::campaign_laws::{law_agenda_leaves_no_island_out, lemma_stands_on, stands_on};
use crate::campaign_pool::{candidate_of, is_candidate};
use crate::campaign_pool_laws::{has_means, law_all_free_units_are_shared_in_order};
use crate::campaign_requirements::{
    campaign_target, capitals, fights_for, first_prize, is_combat_price, is_prize, is_unavailable,
    law_first_prize_is_first, law_least_combat_cost_is_least, least_combat_cost,
};
use crate::entity::Entity;
use crate::grid::{
    law_sorted_positions, read_before, sorted_positions, GameMap, GridPosition, Terrain,
};
use crate::island_campaign::{
    candidate_models, island_candidate_models, IslandCampaignFacts, IslandJudgement, OperationModel,
    PlayerFunds,
};
use crate::islands::{Island, IslandId};
use crate::master_data::{stats_of, MasterDataRegistry};
use crate::missions::TransportPhase;
use crate::operations::unit_of;
use crate::order::{
    gather, lemma_gathered, lemma_joined, lemma_lex_by, lemma_never_before, lemma_pushed,
    lemma_sort_prefix, sort_order, stands_before,
};
use crate::snapshots::{PropertySnapshot, UnitModel};
use crate::squad::{MissionPhase, MissionType, Squad, SquadManager};
use crate::transport_options::{
    chosen_option, island_options, listed_types, master_types, missing_cost, type_keys,
    without_repeats,
};
use crate::units::{PlayerId, UnitType};
use vstd::prelude::*;

verus! {

/// The squad keeps the player's unit from campaigns: once it is done or heads home, its transport,
/// its cargo and what it landed; a transport squad with nowhere to go, what it landed.
pub open spec fn keeps_from_campaigns(
    units: Seq<UnitModel>,
    player: PlayerId,
    squad: Squad,
    e: Entity,
) -> bool {
    let done = squad.phase == MissionPhase::Completed || squad.phase == MissionPhase::Transport(
        TransportPhase::Return,
    );
    let u = unit_of(units, e);
    &&& u is Some && u->0.faction == player
    &&& done ==> (squad.delivered_cargo@.contains(e) || squad.cargo_entities@.contains(e)
        || squad.transport_entity == Some(e))
    &&& !done ==> squad.delivered_cargo@.contains(e) && squad.mission_type == MissionType::Transport
        && squad.target is None && squad.target_island is None
}

/// No campaign gets a unit that acts on its own or that a squad keeps from campaigns; any other it
/// may get.
pub proof fn law_units_are_kept_from_campaigns(
    manager: SquadManager,
    units: Seq<UnitModel>,
    player: PlayerId,
    e: Entity,
)
    ensures
        is_unavailable(manager, units, player, e) <==> manager.solo_fallbacks@.contains(e)
            || exists|i: int|
            0 <= i < manager.squads.len() && keeps_from_campaigns(
                units,
                player,
                #[trigger] manager.squads@[i],
                e,
            ),
{
    if !manager.solo_fallbacks@.contains(e) {
        if is_unavailable(manager, units, player, e) {
            let i = choose|i: int|
                0 <= i < manager.squads.len() && crate::campaign_requirements::holds_back(
                    units,
                    player,
                    #[trigger] manager.squads[i],
                    e,
                );
            assert(keeps_from_campaigns(units, player, manager.squads@[i], e));
        }
        if exists|i: int|
            0 <= i < manager.squads.len() && keeps_from_campaigns(
                units,
                player,
                #[trigger] manager.squads@[i],
                e,
            ) {
            let i = choose|i: int|
                0 <= i < manager.squads.len() && keeps_from_campaigns(
                    units,
                    player,
                    #[trigger] manager.squads@[i],
                    e,
                );
            assert(crate::campaign_requirements::holds_back(
                units,
                player,
                manager.squads[i],
                e,
            ));
        }
    }
}

/// The agenda shares the player's money, and only units that are the player's, that are reserved
/// for nothing else and that no squad keeps from campaigns.
pub proof fn law_agenda_shares_free_units_of_the_player(
    scene: CampaignScene,
    player: PlayerId,
    reserved: Seq<Entity>,
    players: Seq<PlayerFunds>,
    judgements: Seq<IslandJudgement>,
    production_range: Seq<GridPosition>,
    agenda: CampaignAgenda,
    i: int,
)
    requires
        agenda_for(scene, player, reserved, players, judgements, production_range, agenda),
        0 <= i < agenda.pool.units.len(),
    ensures
        agenda.pool.available_funds == funds_of(players, player, 0),
        ({
            let e = agenda.pool.units[i].entity;
            &&& !reserved.contains(e)
            &&& !is_unavailable(scene.manager, scene.units(), player, e)
            &&& exists|k: int|
                0 <= k < scene.units().len() && (#[trigger] scene.units()[k]).entity == e
                    && scene.units()[k].faction == player
        }),
{
    let taken = choose|taken: Seq<Entity>| #[trigger]
        is_taken_list(scene, player, reserved, taken) && candidate_models(agenda.pool.units@)
            == crate::campaign_pool::pool_units(
            scene.travel,
            scene.registry,
            scene.islands.islands@,
            scene.properties(),
            scene.operations(player),
            scene.units(),
            scene.states(player),
            taken,
            player,
        );
    let pool = candidate_models(agenda.pool.units@);
    let c = pool[i];
    assert(pool.contains(c));
    law_all_free_units_are_shared_in_order(
        scene.travel,
        scene.registry,
        scene.islands.islands@,
        scene.properties(),
        scene.operations(player),
        scene.units(),
        scene.states(player),
        taken,
        player,
        c,
    );
    let units = scene.units();
    let k = choose|k: int|
        {
            &&& 0 <= k < units.len()
            &&& is_candidate(
                scene.operations(player),
                units,
                scene.states(player),
                taken,
                player,
                #[trigger] units[k],
            )
            &&& c == candidate_of(
                scene.travel,
                scene.islands.islands@,
                scene.properties(),
                scene.operations(player),
                units,
                player,
                units[k],
            )
        };
    assert(units[k].entity == c.entity);
    assert(agenda.pool.units[i]@ == c);
    assert(!taken.contains(c.entity));
}

proof fn lemma_island_sites(
    islands: Seq<Island>,
    properties: Seq<PropertySnapshot>,
    id: IslandId,
    n: int,
    s: PropertySnapshot,
)
    requires
        0 <= n <= properties.len(),
    ensures
        island_sites(islands, properties, id, n).contains(s) <==> stands_on(islands, s.position, id)
            && properties.take(n).contains(s),
    decreases n,
{
    if n > 0 {
        lemma_island_sites(islands, properties, id, n - 1, s);
        let last = properties[n - 1];
        assert(properties.take(n) =~= properties.take(n - 1).push(last));
        lemma_pushed(properties.take(n - 1), last, s);
        lemma_pushed(island_sites(islands, properties, id, n - 1), last, s);
        lemma_stands_on(islands, last.position, id, 0);
    } else {
        assert(properties.take(0) =~= Seq::<PropertySnapshot>::empty());
    }
}

/// The buildings of an island are those of the board that stand on it.
pub proof fn law_buildings_belong_to_their_island(
    scene: CampaignScene,
    id: IslandId,
    s: PropertySnapshot,
)
    ensures
        sites_of(scene, id).contains(s) <==> scene.properties().contains(s) && stands_on(
            scene.islands.islands@,
            s.position,
            id,
        ),
{
    let all = scene.properties();
    assert(all.take(all.len() as int) =~= all);
    lemma_island_sites(scene.islands.islands@, all, id, all.len() as int, s);
}

proof fn lemma_own_among(sites: Seq<PropertySnapshot>, player: PlayerId, n: int, s: PropertySnapshot)
    requires
        0 <= n <= sites.len(),
    ensures
        own_among_sites(sites, player, n).contains(s) <==> s.property.owner_id == Some(player)
            && sites.take(n).contains(s),
    decreases n,
{
    if n > 0 {
        lemma_own_among(sites, player, n - 1, s);
        assert(sites.take(n) =~= sites.take(n - 1).push(sites[n - 1]));
        lemma_pushed(sites.take(n - 1), sites[n - 1], s);
        lemma_pushed(own_among_sites(sites, player, n - 1), sites[n - 1], s);
    } else {
        assert(sites.take(0) =~= Seq::<PropertySnapshot>::empty());
    }
}

proof fn lemma_ledger(scene: CampaignScene, id: IslandId, n: int)
    requires
        0 <= n,
    ensures
        match scene.ledger(id, n) {
            Some(k) => 0 <= k < n && scene.island_at(k).id == id,
            None => forall|k: int| 0 <= k < n ==> (#[trigger] scene.island_at(k)).id != id,
        },
    decreases n,
{
    if n > 0 {
        lemma_ledger(scene, id, n - 1);
    }
}

proof fn lemma_own_sites(scene: CampaignScene, player: PlayerId, n: int, s: PropertySnapshot)
    requires
        0 <= n,
    ensures
        own_sites_of(scene, player, n).contains(s) <==> s.property.owner_id == Some(player)
            && exists|k: int|
            0 <= k < n && #[trigger] scene.keeps_ledger(k) && sites_of(
                scene,
                scene.island_at(k).id,
            ).contains(s),
    decreases n,
{
    if n > 0 {
        lemma_own_sites(scene, player, n - 1, s);
        let rest = own_sites_of(scene, player, n - 1);
        if scene.keeps_ledger(n - 1) {
            let sites = sites_of(scene, scene.island_at(n - 1).id);
            assert(sites.take(sites.len() as int) =~= sites);
            lemma_own_among(sites, player, sites.len() as int, s);
            lemma_joined(rest, own_among_sites(sites, player, sites.len() as int), s);
        }
        if exists|k: int|
            0 <= k < n - 1 && #[trigger] scene.keeps_ledger(k) && sites_of(
                scene,
                scene.island_at(k).id,
            ).contains(s) {
            let k = choose|k: int|
                0 <= k < n - 1 && #[trigger] scene.keeps_ledger(k) && sites_of(
                    scene,
                    scene.island_at(k).id,
                ).contains(s);
            assert(scene.keeps_ledger(k));
        }
    }
}

/// Transports are built in all buildings of the player that stand on an island.
pub proof fn law_own_buildings_are_those_on_islands(
    scene: CampaignScene,
    player: PlayerId,
    s: PropertySnapshot,
)
    ensures
        own_sites_of(scene, player, scene.islands.islands.len() as int).contains(s)
            <==> s.property.owner_id == Some(player) && scene.properties().contains(s) && exists|
            id: IslandId,
        | #[trigger] stands_on(scene.islands.islands@, s.position, id),
{
    let n = scene.islands.islands.len() as int;
    let islands = scene.islands.islands@;
    lemma_own_sites(scene, player, n, s);
    if own_sites_of(scene, player, n).contains(s) {
        let k = choose|k: int|
            0 <= k < n && #[trigger] scene.keeps_ledger(k) && sites_of(
                scene,
                scene.island_at(k).id,
            ).contains(s);
        law_buildings_belong_to_their_island(scene, scene.island_at(k).id, s);
        assert(stands_on(islands, s.position, scene.island_at(k).id));
    }
    if s.property.owner_id == Some(player) && scene.properties().contains(s) && exists|
        id: IslandId,
    | #[trigger] stands_on(islands, s.position, id) {
        let id = choose|id: IslandId| #[trigger] stands_on(islands, s.position, id);
        let h = choose|h: int|
            0 <= h < islands.len() && (#[trigger] islands[h]).id == id
                && islands[h].tiles@.contains(s.position) && forall|l: int|
                0 <= l < h ==> !(#[trigger] islands[l]).tiles@.contains(s.position);
        let keys = number_keys(islands);
        lemma_sort_prefix(keys, keys.len() as int);
        let order = sort_order(keys);
        assert(order.contains(h));
        let m = choose|m: int| 0 <= m < order.len() && order[m] == h;
        assert(scene.island_at(m).id == id);
        lemma_ledger(scene, id, n);
        let k = scene.ledger(id, n)->0;
        assert(scene.keeps_ledger(k));
        law_buildings_belong_to_their_island(scene, id, s);
    }
}

/// Of an island without buildings, units or cargo nothing is known but its number.
pub proof fn law_nothing_is_known_of_an_empty_island(id: IslandId)
    ensures
        ({
            let f = blank_facts(id);
            &&& f.island_id == id
            &&& f.capturable_properties == 0 && f.neutral_properties == 0 && f.friendly_properties
                == 0 && f.enemy_properties == 0
            &&& f.strategic_production_sites == 0 && f.roi_production_sites == 0
                && f.island_income_per_turn == 0 && f.capture_turns == 0
            &&& f.friendly_units == 0 && f.enemy_units == 0 && f.friendly_combat_value == 0
                && f.enemy_combat_value == 0
            &&& f.friendly_arrival_eta is None && f.enemy_arrival_eta is None
                && f.friendly_capture_eta is None && f.enemy_capture_eta is None
            &&& f.transport_eta is None && f.missing_expansion_package_cost == 0 && !f.reachable
                && !f.has_unowned_properties
        }),
{
}

/// What is known of an island is gathered from its buildings, then from the units, then from the
/// cargo, and then from the transports for it.
pub proof fn law_facts_come_from_buildings_units_and_cargo(
    scene: CampaignScene,
    player: PlayerId,
    k: int,
)
    requires
        scene.keeps_ledger(k),
    ensures
        ({
            let island = scene.island_at(k);
            let id = island.id;
            let sites = sites_of(scene, id);
            let units = scene.units();
            let cargoes = scene.cargoes(player);
            let a = with_sites(blank_facts(id), scene.registry, player, sites, sites.len() as int);
            let b = with_units(a, scene, player, id, sites, units, cargoes, units.len() as int);
            let c = with_cargoes(b, scene, id, sites, units, cargoes, units.len() as int);
            facts_of(scene, player, k) == with_transport(c, scene, player, island)
        }),
{
}

/// Helicopters are preferred exactly for islands with neutral buildings on which neither side has a
/// building or a unit.
pub proof fn law_open_land_is_neutral_and_empty(facts: IslandCampaignFacts)
    ensures
        is_open_neutral(facts) <==> facts.neutral_properties >= 1 && facts.friendly_properties
            + facts.enemy_properties + facts.friendly_units + facts.enemy_units == 0,
{
}

/// A campaign goes for the target that it has; a new one for the first building on the island, in
/// reading order, that can be captured and is not the player's; else for the first tile. There is
/// nothing to go for only on an island without tiles.
pub proof fn law_campaign_goes_for_the_first_prize(
    tiles: Seq<GridPosition>,
    properties: Seq<PropertySnapshot>,
    player: PlayerId,
    operation: Option<OperationModel>,
    s: PropertySnapshot,
)
    ensures
        ({
            let r = campaign_target(tiles, properties, player, operation);
            let prize = |x: PropertySnapshot|
                properties.contains(x) && tiles.contains(x.position)
                    && x.property.max_capture_points > 0 && x.property.owner_id != Some(player);
            &&& operation is Some ==> r == Some(operation->0.target_position)
            &&& operation is None && prize(s) ==> r is Some && !read_before(s.position, r->0)
                && exists|x: PropertySnapshot| #[trigger]
                properties.contains(x) && prize(x) && x.position == r->0
            &&& operation is None && (forall|x: PropertySnapshot| #[trigger]
                properties.contains(x) ==> !prize(x)) ==> {
                &&& r is Some <==> tiles.len() > 0
                &&& r is Some ==> tiles.contains(r->0) && forall|p: GridPosition| #[trigger]
                    tiles.contains(p) ==> !read_before(p, r->0)
            }
        }),
{
    let n = properties.len() as int;
    law_first_prize_is_first(tiles, properties, player, n);
    let first = first_prize(tiles, properties, player, n);
    if operation is None {
        if properties.contains(s) && is_prize(tiles, player, s) {
            let i = choose|i: int| 0 <= i < n && properties[i] == s;
            assert(is_prize(tiles, player, properties[i]));
        }
        if first is Some {
            let i = choose|i: int|
                0 <= i < n && is_prize(tiles, player, #[trigger] properties[i])
                    && properties[i].position == first->0;
            assert(properties.contains(properties[i]));
        } else {
            law_sorted_positions(tiles);
            let sorted = sorted_positions(tiles);
            if tiles.len() > 0 {
                assert(tiles.contains(tiles[0]));
                assert(sorted.contains(tiles[0]));
            }
            if sorted.len() > 0 {
                assert(sorted.contains(sorted[0]));
                assert forall|p: GridPosition| #[trigger] tiles.contains(p) implies !read_before(
                    p,
                    sorted[0],
                ) by {
                    assert(sorted.contains(p));
                    let i = choose|i: int| 0 <= i < sorted.len() && sorted[i] == p;
                    if i > 0 {
                        assert(read_before(sorted[0], sorted[i]));
                    }
                }
            }
        }
    }
}

proof fn lemma_without_repeats(types: Seq<UnitType>, n: int, t: UnitType)
    requires
        0 <= n <= types.len(),
    ensures
        without_repeats(types, n).contains(t) <==> exists|i: int|
            0 <= i < n && #[trigger] types[i] == t,
    decreases n,
{
    if n > 0 {
        lemma_without_repeats(types, n - 1, t);
        lemma_pushed(without_repeats(types, n - 1), types[n - 1], t);
        if n > 1 && types[n - 1] == types[n - 2] {
            if types[n - 1] == t {
                assert(types[n - 2] == t);
            }
        }
        if exists|i: int| 0 <= i < n - 1 && #[trigger] types[i] == t {
            let i = choose|i: int| 0 <= i < n - 1 && #[trigger] types[i] == t;
            assert(types[i] == t);
        }
    }
}

/// Every type with stats is considered, and no other.
pub proof fn law_all_types_are_considered(registry: MasterDataRegistry, t: UnitType)
    ensures
        master_types(registry).contains(t) <==> registry.unit(t) is Some,
{
    let types = listed_types(registry.units@);
    let keys = type_keys(registry, types);
    let sorted = gather(types, sort_order(keys));
    lemma_gathered(types, keys, t);
    lemma_without_repeats(sorted, sorted.len() as int, t);
    lemma_stats_listed(registry, t, 0);
    if types.contains(t) {
        let i = choose|i: int| 0 <= i < types.len() && types[i] == t;
        assert(registry.units@[i].unit_type == t);
    }
    if registry.unit(t) is Some {
        let i = choose|i: int|
            0 <= i < registry.units.len() && (#[trigger] registry.units@[i]).unit_type == t;
        assert(types[i] == t);
    }
    if sorted.contains(t) {
        let i = choose|i: int| 0 <= i < sorted.len() && sorted[i] == t;
        assert(sorted[i] == t);
    }
}

proof fn lemma_stats_listed(registry: MasterDataRegistry, t: UnitType, i: int)
    requires
        0 <= i <= registry.units.len(),
    ensures
        stats_of(registry.units@, t, i) is Some <==> exists|k: int|
            i <= k < registry.units.len() && (#[trigger] registry.units@[k]).unit_type == t,
    decreases registry.units.len() - i,
{
    if i < registry.units.len() {
        lemma_stats_listed(registry, t, i + 1);
        if stats_of(registry.units@, t, i + 1) is Some {
            let k = choose|k: int|
                i + 1 <= k < registry.units.len() && (#[trigger] registry.units@[k]).unit_type == t;
            assert(registry.units@[k].unit_type == t);
        }
        if registry.units@[i].unit_type == t {
            assert(registry.units@[i].unit_type == t);
        }
    }
}

/// The building is the player's, may build there and now, and builds the type, which fights.
pub open spec fn can_build_fighter(
    registry: MasterDataRegistry,
    s: PropertySnapshot,
    player: PlayerId,
    allowed: Seq<GridPosition>,
    t: UnitType,
) -> bool {
    &&& s.property.owner_id == Some(player)
    &&& allowed.contains(s.position)
    &&& registry.builds(s.property.terrain)
    &&& registry.builds_type(s.property.terrain, t)
    &&& registry.unit(t) is Some
    &&& t != UnitType::Lander && t != UnitType::TransportHelicopter && t != UnitType::SupplyTruck
}

/// The least price of a fighter is that of a type that some building of the player can build, and
/// none of them builds one for less. There is no such price only if none builds any.
pub proof fn law_cheapest_fighter_sets_the_price(
    registry: MasterDataRegistry,
    properties: Seq<PropertySnapshot>,
    player: PlayerId,
    allowed: Seq<GridPosition>,
    i: int,
    t: UnitType,
)
    ensures
        ({
            let r = least_combat_cost(
                registry,
                properties,
                player,
                allowed,
                properties.len() as int,
            );
            &&& 0 <= i < properties.len() && can_build_fighter(
                registry,
                properties[i],
                player,
                allowed,
                t,
            ) ==> r is Some && r->0 <= registry.unit(t)->0.cost
            &&& r is Some ==> exists|k: int, u: UnitType|
                0 <= k < properties.len() && #[trigger] can_build_fighter(
                    registry,
                    properties[k],
                    player,
                    allowed,
                    u,
                ) && registry.unit(u)->0.cost == r->0
        }),
{
    let n = properties.len() as int;
    let types = master_types(registry);
    law_least_combat_cost_is_least(registry, properties, player, allowed, n);
    let r = least_combat_cost(registry, properties, player, allowed, n);
    if 0 <= i < n && can_build_fighter(registry, properties[i], player, allowed, t) {
        law_all_types_are_considered(registry, t);
        let k = choose|k: int| 0 <= k < types.len() && types[k] == t;
        let cost = registry.unit(t)->0.cost;
        assert(fights_for(registry, properties[i], player, allowed, types[k], cost));
        assert(is_combat_price(registry, properties, player, allowed, n, cost));
    }
    if r is Some {
        let (k, m) = choose|k: int, m: int|
            0 <= k < n && 0 <= m < types.len() && fights_for(
                registry,
                #[trigger] properties[k],
                player,
                allowed,
                #[trigger] types[m],
                r->0,
            );
        assert(can_build_fighter(registry, properties[k], player, allowed, types[m]));
    }
}

/// The capitals of the player are found where they stand.
pub proof fn law_capitals_are_found(
    properties: Seq<PropertySnapshot>,
    player: PlayerId,
    n: int,
    p: GridPosition,
)
    requires
        0 <= n <= properties.len(),
    ensures
        capitals(properties, player, n).contains(p) <==> exists|i: int|
            0 <= i < n && (#[trigger] properties[i]).position == p && properties[i].property.terrain
                == Terrain::Capital && properties[i].property.owner_id == Some(player),
    decreases n,
{
    if n > 0 {
        law_capitals_are_found(properties, player, n - 1, p);
        lemma_pushed(capitals(properties, player, n - 1), properties[n - 1].position, p);
        if capitals(properties, player, n - 1).contains(p) {
            let i = choose|i: int|
                0 <= i < n - 1 && (#[trigger] properties[i]).position == p
                    && properties[i].property.terrain == Terrain::Capital
                    && properties[i].property.owner_id == Some(player);
            assert(properties[i].position == p);
        }
    }
}

/// The units that block tiles are those on the map that no transport carries.
pub proof fn law_units_outside_block_their_tiles(
    map: GameMap,
    units: Seq<UnitModel>,
    n: int,
    u: UnitModel,
)
    requires
        0 <= n <= units.len(),
    ensures
        standing(map, units, n).contains(u) <==> {
            &&& u.transporting is None
            &&& u.position.x < map.width && u.position.y < map.height
            &&& exists|i: int| 0 <= i < n && #[trigger] units[i] == u
        },
    decreases n,
{
    if n > 0 {
        law_units_outside_block_their_tiles(map, units, n - 1, u);
        lemma_pushed(standing(map, units, n - 1), units[n - 1], u);
        if exists|i: int| 0 <= i < n - 1 && #[trigger] units[i] == u {
            let i = choose|i: int| 0 <= i < n - 1 && #[trigger] units[i] == u;
            assert(units[i] == u);
        }
    }
}

/// A campaign under way is gone on with only if it has something to work with, and it is the first
/// in the list for its island.
pub proof fn law_only_campaigns_with_means_go_on(operations: Seq<OperationModel>, id: IslandId)
    ensures
        match capable_operation(operations, id) {
            Some(o) => o.island_id == id && has_means(o) && exists|k: int|
                0 <= k < operations.len() && #[trigger] operations[k] == o && forall|j: int|
                    0 <= j < k ==> (#[trigger] operations[j]).island_id != id,
            None => forall|k: int|
                0 <= k < operations.len() && (#[trigger] operations[k]).island_id == id && (forall|
                    j: int,
                |
                    0 <= j < k ==> (#[trigger] operations[j]).island_id != id) ==> !has_means(
                    operations[k],
                ),
        },
{
    lemma_operation_for(operations, id, 0);
}

proof fn lemma_operation_for(operations: Seq<OperationModel>, id: IslandId, i: int)
    requires
        0 <= i <= operations.len(),
        forall|j: int| 0 <= j < i ==> (#[trigger] operations[j]).island_id != id,
    ensures
        match crate::campaign_facts::operation_for(operations, id, i) {
            Some(k) => 0 <= k < operations.len() && operations[k].island_id == id && forall|j: int|
                0 <= j < k ==> (#[trigger] operations[j]).island_id != id,
            None => forall|j: int|
                0 <= j < operations.len() ==> (#[trigger] operations[j]).island_id != id,
        },
    decreases operations.len() - i,
{
    if i < operations.len() && operations[i].island_id != id {
        lemma_operation_for(operations, id, i + 1);
    }
}

/// The islands come in the order of their numbers, each of them.
pub proof fn law_islands_come_by_number(scene: CampaignScene)
    ensures
        forall|i: int, j: int|
            0 <= i < j < scene.islands.islands.len() ==> (#[trigger] scene.island_at(i)).id.0 <= (
            #[trigger] scene.island_at(j)).id.0,
        forall|h: int|
            0 <= h < scene.islands.islands.len() ==> exists|k: int|
                0 <= k < scene.islands.islands.len() && #[trigger] scene.island_at(k)
                    == #[trigger] scene.islands.islands@[h],
{
    let islands = scene.islands.islands@;
    let keys = number_keys(islands);
    lemma_sort_prefix(keys, keys.len() as int);
    let order = sort_order(keys);
    assert forall|i: int, j: int| 0 <= i < j < islands.len() implies (
    #[trigger] scene.island_at(i)).id.0 <= (#[trigger] scene.island_at(j)).id.0 by {
        assert(stands_before(keys, order[i], order[j]));
        lemma_never_before(keys, order[i], order[j]);
        if scene.island_at(j).id.0 < scene.island_at(i).id.0 {
            lemma_lex_by(keys[order[j]], keys[order[i]], 0);
        }
    }
    assert forall|h: int| 0 <= h < islands.len() implies exists|k: int|
        0 <= k < islands.len() && #[trigger] scene.island_at(k) == #[trigger] islands[h] by {
        assert(order.contains(h));
        let k = choose|k: int| 0 <= k < order.len() && order[k] == h;
        assert(scene.island_at(k) == islands[h]);
    }
}

/// Something can be built on a terrain exactly if it builds a type that has stats.
pub proof fn law_terrain_builds_types_with_stats(registry: MasterDataRegistry, terrain: Terrain)
    ensures
        builds_some(registry, terrain) <==> exists|t: UnitType|
            registry.unit(t) is Some && #[trigger] registry.builds_type(terrain, t),
{
    let types = master_types(registry);
    if builds_some(registry, terrain) {
        let i = choose|i: int|
            0 <= i < types.len() && registry.builds_type(terrain, #[trigger] types[i]);
        assert(types.contains(types[i]));
        law_all_types_are_considered(registry, types[i]);
        assert(registry.builds_type(terrain, types[i]));
    }
    if exists|t: UnitType|
        registry.unit(t) is Some && #[trigger] registry.builds_type(terrain, t) {
        let t = choose|t: UnitType|
            registry.unit(t) is Some && #[trigger] registry.builds_type(terrain, t);
        law_all_types_are_considered(registry, t);
        let i = choose|i: int| 0 <= i < types.len() && types[i] == t;
        assert(registry.builds_type(terrain, types[i]));
    }
}

/// Every entry of the agenda is that of an island, no island with a tile to go for is left out, and
/// each knows the price of the cheapest fighter that the player can build in range.
pub proof fn law_agenda_covers_the_islands(
    scene: CampaignScene,
    player: PlayerId,
    reserved: Seq<Entity>,
    players: Seq<PlayerFunds>,
    judgements: Seq<IslandJudgement>,
    production_range: Seq<GridPosition>,
    agenda: CampaignAgenda,
    k: int,
)
    requires
        agenda_for(scene, player, reserved, players, judgements, production_range, agenda),
        0 <= k < scene.islands.islands.len(),
    ensures
        ({
            let entries = island_candidate_models(agenda.candidates@);
            let price = least_combat_cost(
                scene.registry,
                scene.properties(),
                player,
                production_range,
                scene.properties().len() as int,
            );
            let entry = island_candidate(scene, player, judgements, price, k);
            &&& entry is Some ==> entries.contains(entry->0)
            &&& forall|i: int|
                0 <= i < entries.len() ==> (#[trigger] entries[i]).minimum_combat_purchase_cost
                    == price
        }),
{
    let entries = island_candidate_models(agenda.candidates@);
    let n = scene.islands.islands.len() as int;
    let price = least_combat_cost(
        scene.registry,
        scene.properties(),
        player,
        production_range,
        scene.properties().len() as int,
    );
    law_agenda_leaves_no_island_out(scene, player, judgements, price, n);
    assert forall|i: int| 0 <= i < entries.len() implies (
    #[trigger] entries[i]).minimum_combat_purchase_cost == price by {
        let all = island_candidates(scene, player, judgements, price, n);
        assert(entries[i] == all[i]);
        let m = choose|m: int|
            0 <= m < n && #[trigger] island_candidate(scene, player, judgements, price, m) == Some(
                all[i],
            );
        assert(island_candidate(scene, player, judgements, price, m) == Some(all[i]));
    }
}

/// On an island without a foothold the transport is chosen among those that serve it, a helicopter
/// by preference on open neutral land. The time is that of the chosen one, and what is missing is
/// what it and two captors cost, less what the first campaign for the island has.
pub proof fn law_package_goes_with_the_chosen_transport(
    facts: IslandCampaignFacts,
    scene: CampaignScene,
    player: PlayerId,
    island: Island,
    k: int,
)
    requires
        facts.friendly_properties == 0,
        facts.friendly_units == 0,
    ensures
        ({
            let next = with_transport(facts, scene, player, island);
            let open = facts.neutral_properties >= 1 && facts.enemy_properties == 0
                && facts.enemy_units == 0;
            let chosen = chosen_option(
                scene.registry,
                island_options(
                    scene.map,
                    scene.registry,
                    scene.travel,
                    player,
                    island,
                    scene.units(),
                    scene.states(player),
                    own_sites_of(scene, player, scene.islands.islands.len() as int),
                ),
                open,
            );
            let operations = scene.operations(player);
            &&& next.reachable <==> chosen is Some
            &&& next.transport_eta is Some <==> chosen is Some
            &&& chosen is Some ==> next.transport_eta == Some(chosen->0.eta)
            &&& 0 <= k < operations.len() && operations[k].island_id == island.id && (forall|
                j: int,
            | 0 <= j < k ==> (#[trigger] operations[j]).island_id != island.id)
                ==> next.missing_expansion_package_cost == missing_cost(
                scene.registry,
                chosen,
                Some(operations[k]),
                scene.units(),
            )
            &&& (forall|j: int|
                0 <= j < operations.len() ==> (#[trigger] operations[j]).island_id != island.id)
                ==> next.missing_expansion_package_cost == missing_cost(
                scene.registry,
                chosen,
                None,
                scene.units(),
            )
        }),
{
    let operations = scene.operations(player);
    lemma_operation_for(operations, island.id, 0);
    if let Some(m) = crate::campaign_facts::operation_for(operations, island.id, 0) {
        if 0 <= k < m {
            assert(operations[k].island_id != island.id);
        }
    }
}

} // verus!
