//! What holds of the facts about islands, of the transports for them and of the agenda.
use crate::campaign_analysis::{
    facts_about, final_assessment, final_requirement, funds_of, island_candidate, island_candidates,
    judgement_on,
};
use crate::campaign_facts::{
    builds_some, is_open_neutral, landing_eta, own_sites_of, with_cargo, with_cargoes, with_site,
    with_sites, with_transport, with_unit, with_units, CampaignScene,
};
use crate::campaign_requirements::{requirement_of, revised, sole_island};
use crate::entity::Entity;
use crate::eta::{combat_worth, drop_eta, eta, island_eta, quotient_up, traveller_of};
use crate::grid::{GameMap, GridPosition, Terrain};
use crate::island_campaign::{
    IslandCampaignDecision, IslandCampaignFacts, IslandCampaignState, IslandJudgement,
    OperationModel, PlayerFunds,
};
use crate::islands::{Island, IslandId};
use crate::master_data::MasterDataRegistry;
use crate::missions::{island_holding, TransportPhase};
use crate::operations::{state_in, AssignedTransportState, CargoModel};
use crate::order::{
    first_least, keys_index, lemma_first_least, lemma_gathered, lemma_joined, lemma_lex_by,
    lemma_lex_irreflexive, lemma_never_before, lemma_pushed, stands_before,
};
use crate::snapshots::{PropertySnapshot, UnitModel};
use crate::transport_options::{
    arrival_time, built_options, can_serve, capture_unit_cost, cargo_wait, chosen_option,
    cost_after_captures, delivery_eta, fallback_key, fallback_keys, first_unit, held_options,
    helicopter_key, helicopter_keys, helicopter_producible, helicopters, island_options,
    member_wait, missing_cost, produced_unit, type_options, unsorted_options, TransportOption,
    TransportSource,
};
use crate::travel::{TravelTable, Traveller};
use crate::units::{PlayerId, UnitStats, UnitType};
use vstd::prelude::*;

verus! {

/// The unit is a helicopter or lander of the player with fuel, on the board and not in another
/// transport, that may serve the island: it has no duty, carries nothing and has room, or its duty
/// is to bring its cargo to that island and it is not on its way home.
pub open spec fn serves(
    unit: UnitModel,
    state: Option<AssignedTransportState>,
    player: PlayerId,
    island: IslandId,
) -> bool {
    &&& unit.faction == player
    &&& unit.transporting is None
    &&& unit.fuel is None || unit.fuel->0 > 0
    &&& unit.unit_type == UnitType::TransportHelicopter || unit.unit_type == UnitType::Lander
    &&& unit.free_cargo_slots > 0 || unit.loaded.len() > 0
    &&& match state {
        None => unit.loaded.len() == 0 && unit.free_cargo_slots > 0,
        Some(AssignedTransportState::Forming(target, own)) => own && target == Some(island),
        Some(AssignedTransportState::Phase(phase, target, own)) => own && target == Some(island)
            && phase != TransportPhase::Return,
        Some(AssignedTransportState::Other) => false,
    }
}

/// The option is a transport on the board that serves the island, or a helicopter or lander that a
/// building of the player can build and that then gets there, one turn later.
pub open spec fn is_service(
    map: GameMap,
    registry: MasterDataRegistry,
    travel: TravelTable,
    player: PlayerId,
    island: Island,
    units: Seq<UnitModel>,
    states: Seq<(Entity, AssignedTransportState)>,
    owned: Seq<PropertySnapshot>,
    o: TransportOption,
) -> bool {
    match o.source {
        TransportSource::Held(e) => exists|k: int|
            {
                &&& 0 <= k < units.len()
                &&& (#[trigger] units[k]).entity == e
                &&& o.unit_type == units[k].unit_type
                &&& o.cost == units[k].cost
                &&& serves(units[k], state_in(states, e), player, island.id)
                &&& island_eta(map, registry, travel, units[k], island.tiles@) == Some(o.eta)
            },
        TransportSource::Producible(p) => is_built(
            map,
            registry,
            travel,
            player,
            island.tiles@,
            owned,
            o,
            p,
        ) && (o.unit_type == UnitType::TransportHelicopter || o.unit_type == UnitType::Lander),
    }
}

/// A building of the player at the position can build the transport.
pub open spec fn is_built(
    map: GameMap,
    registry: MasterDataRegistry,
    travel: TravelTable,
    player: PlayerId,
    tiles: Seq<GridPosition>,
    owned: Seq<PropertySnapshot>,
    o: TransportOption,
    p: GridPosition,
) -> bool {
    &&& registry.unit(o.unit_type) is Some
    &&& o.cost == registry.unit(o.unit_type)->0.cost
    &&& exists|k: int|
        {
            let way = island_eta(
                map,
                registry,
                travel,
                produced_unit(registry.unit(o.unit_type)->0, player, p),
                tiles,
            );
            &&& 0 <= k < owned.len()
            &&& (#[trigger] owned[k]).position == p
            &&& registry.builds_type(owned[k].property.terrain, o.unit_type)
            &&& way is Some
            &&& o.eta == (if way->0 < u32::MAX {
                way->0 + 1
            } else {
                u32::MAX as int
            })
        }
}

proof fn lemma_held_options(
    map: GameMap,
    registry: MasterDataRegistry,
    travel: TravelTable,
    player: PlayerId,
    island: Island,
    units: Seq<UnitModel>,
    states: Seq<(Entity, AssignedTransportState)>,
    n: int,
    o: TransportOption,
)
    requires
        0 <= n <= units.len(),
    ensures
        held_options(map, registry, travel, player, island, units, states, n).contains(o)
            <==> exists|k: int|
            {
                &&& 0 <= k < n
                &&& o.source == TransportSource::Held((#[trigger] units[k]).entity)
                &&& o.unit_type == units[k].unit_type
                &&& o.cost == units[k].cost
                &&& serves(units[k], state_in(states, units[k].entity), player, island.id)
                &&& island_eta(map, registry, travel, units[k], island.tiles@) == Some(o.eta)
            },
    decreases n,
{
    if n > 0 {
        lemma_held_options(map, registry, travel, player, island, units, states, n - 1, o);
        let rest = held_options(map, registry, travel, player, island, units, states, n - 1);
        let unit = units[n - 1];
        assert(can_serve(unit, states, player, island.id) <==> serves(
            unit,
            state_in(states, unit.entity),
            player,
            island.id,
        ));
        if let Some(t) = island_eta(map, registry, travel, unit, island.tiles@) {
            let last = TransportOption {
                unit_type: unit.unit_type,
                cost: unit.cost,
                eta: t,
                source: TransportSource::Held(unit.entity),
            };
            lemma_pushed(rest, last, o);
        }
        if rest.contains(o) {
            let k = choose|k: int|
                {
                    &&& 0 <= k < n - 1
                    &&& o.source == TransportSource::Held((#[trigger] units[k]).entity)
                    &&& o.unit_type == units[k].unit_type
                    &&& o.cost == units[k].cost
                    &&& serves(units[k], state_in(states, units[k].entity), player, island.id)
                    &&& island_eta(map, registry, travel, units[k], island.tiles@) == Some(o.eta)
                };
            assert(o.source == TransportSource::Held(units[k].entity));
        }
    }
}

proof fn lemma_built_options(
    map: GameMap,
    registry: MasterDataRegistry,
    travel: TravelTable,
    player: PlayerId,
    tiles: Seq<GridPosition>,
    stats: UnitStats,
    unit_type: UnitType,
    owned: Seq<PropertySnapshot>,
    n: int,
    o: TransportOption,
)
    requires
        0 <= n <= owned.len(),
    ensures
        built_options(map, registry, travel, player, tiles, stats, unit_type, owned, n).contains(o)
            <==> o.unit_type == unit_type && o.cost == stats.cost && exists|k: int|
            {
                let way = island_eta(
                    map,
                    registry,
                    travel,
                    produced_unit(stats, player, owned[k].position),
                    tiles,
                );
                &&& 0 <= k < n
                &&& o.source == TransportSource::Producible((#[trigger] owned[k]).position)
                &&& registry.builds_type(owned[k].property.terrain, unit_type)
                &&& way is Some
                &&& o.eta == way->0.saturating_add(1)
            },
    decreases n,
{
    if n > 0 {
        lemma_built_options(
            map,
            registry,
            travel,
            player,
            tiles,
            stats,
            unit_type,
            owned,
            n - 1,
            o,
        );
        let rest = built_options(
            map,
            registry,
            travel,
            player,
            tiles,
            stats,
            unit_type,
            owned,
            n - 1,
        );
        let site = owned[n - 1];
        if let Some(t) = island_eta(
            map,
            registry,
            travel,
            produced_unit(stats, player, site.position),
            tiles,
        ) {
            let last = TransportOption {
                unit_type,
                cost: stats.cost,
                eta: t.saturating_add(1),
                source: TransportSource::Producible(site.position),
            };
            lemma_pushed(rest, last, o);
        }
        if rest.contains(o) {
            let k = choose|k: int|
                {
                    let way = island_eta(
                        map,
                        registry,
                        travel,
                        produced_unit(stats, player, owned[k].position),
                        tiles,
                    );
                    &&& 0 <= k < n - 1
                    &&& o.source == TransportSource::Producible((#[trigger] owned[k]).position)
                    &&& registry.builds_type(owned[k].property.terrain, unit_type)
                    &&& way is Some
                    &&& o.eta == way->0.saturating_add(1)
                };
            assert(o.source == TransportSource::Producible(owned[k].position));
        }
    }
}

proof fn lemma_type_options(
    map: GameMap,
    registry: MasterDataRegistry,
    travel: TravelTable,
    player: PlayerId,
    tiles: Seq<GridPosition>,
    unit_type: UnitType,
    owned: Seq<PropertySnapshot>,
    o: TransportOption,
)
    ensures
        type_options(map, registry, travel, player, tiles, unit_type, owned).contains(o)
            <==> o.unit_type == unit_type && (o.source matches TransportSource::Producible(p)
            && is_built(map, registry, travel, player, tiles, owned, o, p)),
{
    if let Some(stats) = registry.unit(unit_type) {
        lemma_built_options(
            map,
            registry,
            travel,
            player,
            tiles,
            stats,
            unit_type,
            owned,
            owned.len() as int,
            o,
        );
        if o.unit_type == unit_type {
            if let TransportSource::Producible(p) = o.source {
                if type_options(map, registry, travel, player, tiles, unit_type, owned).contains(
                    o,
                ) {
                    let k = choose|k: int|
                        {
                            let way = island_eta(
                                map,
                                registry,
                                travel,
                                produced_unit(stats, player, owned[k].position),
                                tiles,
                            );
                            &&& 0 <= k < owned.len()
                            &&& o.source == TransportSource::Producible(
                                (#[trigger] owned[k]).position,
                            )
                            &&& registry.builds_type(owned[k].property.terrain, unit_type)
                            &&& way is Some
                            &&& o.eta == way->0.saturating_add(1)
                        };
                    assert(owned[k].position == p);
                }
                if is_built(map, registry, travel, player, tiles, owned, o, p) {
                    let k = choose|k: int|
                        {
                            let way = island_eta(
                                map,
                                registry,
                                travel,
                                produced_unit(registry.unit(o.unit_type)->0, player, p),
                                tiles,
                            );
                            &&& 0 <= k < owned.len()
                            &&& (#[trigger] owned[k]).position == p
                            &&& registry.builds_type(owned[k].property.terrain, o.unit_type)
                            &&& way is Some
                            &&& o.eta == (if way->0 < u32::MAX {
                                way->0 + 1
                            } else {
                                u32::MAX as int
                            })
                        };
                    assert(o.source == TransportSource::Producible(owned[k].position));
                }
            }
        }
    }
}

/// The options for an island are exactly the transports that serve it or can be built to.
pub proof fn law_options_are_all_services(
    map: GameMap,
    registry: MasterDataRegistry,
    travel: TravelTable,
    player: PlayerId,
    island: Island,
    units: Seq<UnitModel>,
    states: Seq<(Entity, AssignedTransportState)>,
    owned: Seq<PropertySnapshot>,
    o: TransportOption,
)
    ensures
        island_options(map, registry, travel, player, island, units, states, owned).contains(o)
            <==> is_service(map, registry, travel, player, island, units, states, owned, o),
{
    let tiles = island.tiles@;
    let held = held_options(
        map,
        registry,
        travel,
        player,
        island,
        units,
        states,
        units.len() as int,
    );
    let first = type_options(
        map,
        registry,
        travel,
        player,
        tiles,
        UnitType::TransportHelicopter,
        owned,
    );
    let second = type_options(map, registry, travel, player, tiles, UnitType::Lander, owned);
    let list = unsorted_options(map, registry, travel, player, island, units, states, owned);
    lemma_held_options(
        map,
        registry,
        travel,
        player,
        island,
        units,
        states,
        units.len() as int,
        o,
    );
    lemma_type_options(
        map,
        registry,
        travel,
        player,
        tiles,
        UnitType::TransportHelicopter,
        owned,
        o,
    );
    lemma_type_options(map, registry, travel, player, tiles, UnitType::Lander, owned, o);
    lemma_joined(held, first, o);
    lemma_joined(held + first, second, o);
    lemma_gathered(list, fallback_keys(registry, list), o);
    if let TransportSource::Held(e) = o.source {
        if is_service(map, registry, travel, player, island, units, states, owned, o) {
            let k = choose|k: int|
                {
                    &&& 0 <= k < units.len()
                    &&& (#[trigger] units[k]).entity == e
                    &&& o.unit_type == units[k].unit_type
                    &&& o.cost == units[k].cost
                    &&& serves(units[k], state_in(states, e), player, island.id)
                    &&& island_eta(map, registry, travel, units[k], tiles) == Some(o.eta)
                };
            assert(o.source == TransportSource::Held(units[k].entity));
        }
        if held.contains(o) {
            let k = choose|k: int|
                {
                    &&& 0 <= k < units.len()
                    &&& o.source == TransportSource::Held((#[trigger] units[k]).entity)
                    &&& o.unit_type == units[k].unit_type
                    &&& o.cost == units[k].cost
                    &&& serves(units[k], state_in(states, units[k].entity), player, island.id)
                    &&& island_eta(map, registry, travel, units[k], tiles) == Some(o.eta)
                };
            assert(units[k].entity == e);
        }
    }
}

/// The first option is cheaper; of equal price its type has the lesser rank; of equal rank it is on
/// the board and the other is to be built.
pub open spec fn comes_cheaper(
    registry: MasterDataRegistry,
    a: TransportOption,
    b: TransportOption,
) -> bool {
    if a.cost != b.cost {
        a.cost < b.cost
    } else if registry.rank(a.unit_type) != registry.rank(b.unit_type) {
        registry.rank(a.unit_type) < registry.rank(b.unit_type)
    } else {
        a.source is Held && b.source is Producible
    }
}

/// The first helicopter is at hand and the other is to be built; else it is cheaper.
pub open spec fn is_more_at_hand(a: TransportOption, b: TransportOption) -> bool {
    if (a.source is Held) != (b.source is Held) {
        a.source is Held
    } else {
        a.cost < b.cost
    }
}

/// The choice of a transport. Where helicopters are preferred and one can be built it is a
/// helicopter, and none is more at hand. Otherwise no option comes cheaper. There is a choice
/// whenever there is an option.
#[verifier::rlimit(50)]
pub proof fn law_choice_of_transport(
    registry: MasterDataRegistry,
    options: Seq<TransportOption>,
    prefer_helicopter: bool,
)
    ensures
        ({
            let r = chosen_option(registry, options, prefer_helicopter);
            let flies = prefer_helicopter && exists|i: int|
                0 <= i < options.len() && (#[trigger] options[i]).unit_type
                    == UnitType::TransportHelicopter && options[i].source is Producible;
            &&& r is Some <==> options.len() > 0
            &&& r is Some ==> options.contains(r->0)
            &&& r is Some && flies ==> r->0.unit_type == UnitType::TransportHelicopter && forall|
                i: int,
            |
                0 <= i < options.len() && (#[trigger] options[i]).unit_type
                    == UnitType::TransportHelicopter ==> !is_more_at_hand(options[i], r->0)
            &&& r is Some && !flies ==> forall|i: int|
                0 <= i < options.len() ==> !comes_cheaper(registry, #[trigger] options[i], r->0)
        }),
{
    let n = options.len() as int;
    if prefer_helicopter && helicopter_producible(options) {
        let list = helicopters(options, n);
        let keys = helicopter_keys(list);
        let w = choose|i: int|
            0 <= i < options.len() && (#[trigger] options[i]).unit_type
                == UnitType::TransportHelicopter && options[i].source is Producible;
        lemma_helicopters(options, n, options[w]);
        assert(options.take(n) =~= options);
        assert(options.contains(options[w]));
        lemma_first_least(keys, list.len() as int);
        let b = first_least(keys, list.len() as int);
        assert(list.contains(list[b]));
        lemma_helicopters(options, n, list[b]);
        assert forall|i: int|
            0 <= i < options.len() && (#[trigger] options[i]).unit_type
                == UnitType::TransportHelicopter implies !is_more_at_hand(options[i], list[b]) by {
            lemma_helicopters(options, n, options[i]);
            assert(options.contains(options[i]));
            let j = choose|j: int| 0 <= j < list.len() && list[j] == options[i];
            if is_more_at_hand(options[i], list[b]) {
                let x = helicopter_key(options[i]);
                let y = helicopter_key(list[b]);
                lemma_lex_by(
                    x,
                    y,
                    if x[0] != y[0] {
                        0
                    } else {
                        1
                    },
                );
                assert(keys[j] == x && keys[b] == y);
                lemma_lex_irreflexive(y);
                if j != b {
                    assert(stands_before(keys, b, keys_index(j)));
                    lemma_never_before(keys, b, j);
                }
            }
        }
    } else if n > 0 {
        let keys = fallback_keys(registry, options);
        lemma_first_least(keys, n);
        let b = first_least(keys, n);
        assert(options.contains(options[b]));
        assert forall|i: int| 0 <= i < options.len() implies !comes_cheaper(
            registry,
            #[trigger] options[i],
            options[b],
        ) by {
            if comes_cheaper(registry, options[i], options[b]) {
                let x = fallback_key(registry, options[i]);
                let y = fallback_key(registry, options[b]);
                lemma_lex_by(
                    x,
                    y,
                    if x[0] != y[0] {
                        0
                    } else if x[1] != y[1] {
                        1
                    } else {
                        2
                    },
                );
                assert(keys[i] == x && keys[b] == y);
                lemma_lex_irreflexive(y);
                if i != b {
                    assert(stands_before(keys, b, keys_index(i)));
                    lemma_never_before(keys, b, i);
                }
            }
        }
    }
}

proof fn lemma_helicopters(options: Seq<TransportOption>, n: int, o: TransportOption)
    requires
        0 <= n <= options.len(),
    ensures
        helicopters(options, n).contains(o) <==> o.unit_type == UnitType::TransportHelicopter
            && options.take(n).contains(o),
    decreases n,
{
    let some = options.take(n);
    if n > 0 {
        lemma_helicopters(options, n - 1, o);
        let fewer = options.take(n - 1);
        assert(some =~= fewer.push(options[n - 1]));
        lemma_pushed(fewer, options[n - 1], o);
        lemma_pushed(helicopters(options, n - 1), options[n - 1], o);
    } else {
        assert(some =~= Seq::<TransportOption>::empty());
    }
}

/// The sum, or the greatest number there is.
pub open spec fn capped(v: int) -> int {
    if v > u32::MAX {
        u32::MAX as int
    } else {
        v
    }
}

/// When cargo gets to its island. On the way home it never does; while it is landed it is there.
/// Under way it takes what the transport takes. Before that transport and cargo wait for the later
/// of the two, boarding takes a turn, and the way from there follows.
#[verifier::rlimit(50)]
pub proof fn law_cargo_arrives_after_pickup_and_way(
    assignment: CargoModel,
    units: Seq<UnitModel>,
    map: GameMap,
    registry: MasterDataRegistry,
    travel: TravelTable,
    tiles: Seq<GridPosition>,
)
    ensures
        ({
            let r = arrival_time(assignment, units, map, registry, travel, tiles);
            let t = first_unit(units, assignment.transport_entity, 0);
            let pickup = assignment.pickup_position;
            match assignment.phase {
                TransportPhase::Return => r is None,
                TransportPhase::Drop => r == Some(0u32),
                TransportPhase::Transit => if t is None {
                    r is None
                } else {
                    r == delivery_eta(
                        map,
                        registry,
                        travel,
                        t->0,
                        assignment.drop_position,
                        tiles,
                    )
                },
                TransportPhase::Pickup => if t is None || pickup is None {
                    r is None
                } else {
                    let own = eta(map, travel, traveller_of(t->0), t->0.position, pickup->0);
                    let wait = cargo_wait(
                        map,
                        travel,
                        units,
                        t->0.entity,
                        assignment.cargo_entities,
                        pickup->0,
                        assignment.cargo_entities.len() as int,
                    );
                    let way = delivery_eta(
                        map,
                        registry,
                        travel,
                        (UnitModel { position: pickup->0, ..t->0 }),
                        assignment.drop_position,
                        tiles,
                    );
                    &&& r is Some <==> own is Some && wait is Some && way is Some
                    &&& r is Some ==> r->0 >= capped(own->0 + 1 + way->0) && r->0 >= capped(
                        wait->0 + 1 + way->0,
                    ) && (r->0 == capped(own->0 + 1 + way->0) || r->0 == capped(
                        wait->0 + 1 + way->0,
                    ))
                },
            }
        }),
{
}

/// What is missing for an expansion. Without a campaign it is the price of the transport, if it has
/// to be built, and twice that of the cheaper of infantry and mechanised infantry.
#[verifier::rlimit(50)]
pub proof fn law_missing_package_is_transport_and_two_units(
    registry: MasterDataRegistry,
    transport: Option<TransportOption>,
    units: Seq<UnitModel>,
)
    ensures
        ({
            let price = if transport is Some && transport->0.source is Producible {
                transport->0.cost as int
            } else {
                0
            };
            let infantry = registry.unit(UnitType::Infantry);
            let mech = registry.unit(UnitType::Mech);
            let unit = if infantry is Some && (mech is None || infantry->0.cost <= mech->0.cost) {
                infantry->0.cost as int
            } else if mech is Some {
                mech->0.cost as int
            } else {
                0
            };
            missing_cost(registry, transport, None, units) == capped(price + capped(2 * unit))
        }),
{
}

/// What a campaign under way already has is taken off: the transport if it has one, and for each
/// of its first two units for capturing its price, but no more than a unit for capturing costs. A
/// campaign that is neither forming nor under way counts for nothing.
#[verifier::rlimit(50)]
pub proof fn law_what_a_campaign_has_is_taken_off(
    registry: MasterDataRegistry,
    transport: Option<TransportOption>,
    o: OperationModel,
    units: Seq<UnitModel>,
)
    ensures
        ({
            let all = missing_cost(registry, transport, None, units);
            let left = missing_cost(registry, transport, Some(o), units);
            let counts = o.is_forming || (o.transport_phase is Some && o.transport_phase->0
                != TransportPhase::Return);
            let price = if transport is Some && transport->0.source is Producible {
                transport->0.cost as int
            } else {
                0
            };
            &&& !counts ==> left == all
            &&& left <= all
            &&& counts ==> left == lowered(
                lowered(
                    lowered(
                        all as int,
                        if o.transport_entities.len() > 0 {
                            price
                        } else {
                            0
                        },
                    ),
                    worth_of_capturer(registry, o, units, 0),
                ),
                worth_of_capturer(registry, o, units, 1),
            )
        }),
{
    let price = if o.transport_entities.len() > 0 && transport is Some
        && transport->0.source is Producible {
        transport->0.cost
    } else {
        0
    };
    let all = missing_cost(registry, transport, None, units);
    lemma_captors_taken_off(registry, o, units, all.saturating_sub(price));
}

proof fn lemma_captors_taken_off(
    registry: MasterDataRegistry,
    o: OperationModel,
    units: Seq<UnitModel>,
    start: u32,
)
    ensures
        ({
            let n = if o.capture_entities.len() < 2 {
                o.capture_entities.len() as int
            } else {
                2
            };
            cost_after_captures(
                start,
                capture_unit_cost(registry),
                o.capture_entities,
                units,
                n,
            ) == lowered(
                lowered(start as int, worth_of_capturer(registry, o, units, 0)),
                worth_of_capturer(registry, o, units, 1),
            )
        }),
{
    let cost = capture_unit_cost(registry);
    let list = o.capture_entities;
    assert(cost_after_captures(start, cost, list, units, 0) == start);
    let first = worth_of_capturer(registry, o, units, 0);
    if list.len() > 0 {
        assert(cost_after_captures(start, cost, list, units, 1) == lowered(start as int, first));
    }
    if list.len() > 1 {
        assert(cost_after_captures(start, cost, list, units, 2) == lowered(
            lowered(start as int, first),
            worth_of_capturer(registry, o, units, 1),
        ));
    }
}

/// The difference, but not below zero.
pub open spec fn lowered(v: int, by: int) -> int {
    if v >= by {
        v - by
    } else {
        0
    }
}

/// What the campaign's unit for capturing at the place counts for: its price, but no more than a
/// unit for capturing costs; nothing if there is no such unit.
pub open spec fn worth_of_capturer(
    registry: MasterDataRegistry,
    o: OperationModel,
    units: Seq<UnitModel>,
    k: int,
) -> int {
    let cost = capture_unit_cost(registry);
    if k < o.capture_entities.len() && first_unit(units, o.capture_entities[k], 0) is Some {
        let unit = first_unit(units, o.capture_entities[k], 0)->0;
        if unit.cost <= cost {
            unit.cost as int
        } else {
            cost as int
        }
    } else {
        0
    }
}

/// One more building changes just what it is about. With capture points it counts as capturable and
/// as neutral, friendly or hostile, and one that is not the player's makes the island one with
/// something to win and may shorten the capture. Every building earns its income, and production
/// sites count where something can be built on them.
#[verifier::rlimit(50)]
pub proof fn law_building_counts_for_what_it_is(
    facts: IslandCampaignFacts,
    registry: MasterDataRegistry,
    player: PlayerId,
    site: PropertySnapshot,
)
    ensures
        ({
            let next = with_site(facts, registry, player, site);
            let b = site.property;
            let prize = b.max_capture_points > 0;
            let own = b.owner_id == Some(player);
            let turns = quotient_up(b.capture_points, 100);
            let one = |yes: bool| if yes {
                1int
            } else {
                0
            };
            &&& next.capturable_properties == capped(facts.capturable_properties + one(prize))
            &&& next.neutral_properties == capped(
                facts.neutral_properties + one(prize && b.owner_id is None),
            )
            &&& next.friendly_properties == capped(facts.friendly_properties + one(prize && own))
            &&& next.enemy_properties == capped(
                facts.enemy_properties + one(prize && b.owner_id is Some && !own),
            )
            &&& next.has_unowned_properties == (facts.has_unowned_properties || (prize && !own))
            &&& next.island_income_per_turn == capped(
                facts.island_income_per_turn + registry.income(b.terrain),
            )
            &&& next.strategic_production_sites == capped(
                facts.strategic_production_sites + one(
                    builds_some(registry, b.terrain) && (b.terrain == Terrain::Capital || b.terrain
                        == Terrain::Factory || b.terrain == Terrain::Port || b.terrain
                        == Terrain::Airport),
                ),
            )
            &&& next.roi_production_sites == capped(
                facts.roi_production_sites + one(
                    builds_some(registry, b.terrain) && (b.terrain == Terrain::Factory || b.terrain
                        == Terrain::Port || b.terrain == Terrain::Airport),
                ),
            )
            &&& prize && !own ==> next.capture_turns == (if facts.capture_turns == 0 || turns
                < facts.capture_turns {
                turns
            } else {
                facts.capture_turns as int
            })
            &&& !prize || own ==> next.capture_turns == facts.capture_turns
            &&& next == (IslandCampaignFacts {
                capturable_properties: next.capturable_properties,
                neutral_properties: next.neutral_properties,
                friendly_properties: next.friendly_properties,
                enemy_properties: next.enemy_properties,
                has_unowned_properties: next.has_unowned_properties,
                capture_turns: next.capture_turns,
                island_income_per_turn: next.island_income_per_turn,
                strategic_production_sites: next.strategic_production_sites,
                roi_production_sites: next.roi_production_sites,
                ..facts
            })
        }),
{
}

/// The facts with some buildings and one more are those with the one more after the others.
pub proof fn law_buildings_count_one_by_one(
    facts: IslandCampaignFacts,
    registry: MasterDataRegistry,
    player: PlayerId,
    sites: Seq<PropertySnapshot>,
    more: PropertySnapshot,
)
    ensures
        with_sites(facts, registry, player, sites, 0) == facts,
        with_sites(facts, registry, player, sites.push(more), sites.len() + 1int) == with_site(
            with_sites(facts, registry, player, sites, sites.len() as int),
            registry,
            player,
            more,
        ),
{
    lemma_sites_prefix(facts, registry, player, sites, more, sites.len() as int);
}

proof fn lemma_sites_prefix(
    facts: IslandCampaignFacts,
    registry: MasterDataRegistry,
    player: PlayerId,
    sites: Seq<PropertySnapshot>,
    more: PropertySnapshot,
    n: int,
)
    requires
        0 <= n <= sites.len(),
    ensures
        with_sites(facts, registry, player, sites.push(more), n) == with_sites(
            facts,
            registry,
            player,
            sites,
            n,
        ),
    decreases n,
{
    if n > 0 {
        lemma_sites_prefix(facts, registry, player, sites, more, n - 1);
    }
}

/// The first island in the list that has the tile has the number.
pub open spec fn stands_on(islands: Seq<Island>, p: GridPosition, id: IslandId) -> bool {
    exists|h: int|
        0 <= h < islands.len() && (#[trigger] islands[h]).id == id && islands[h].tiles@.contains(p)
            && forall|l: int| 0 <= l < h ==> !(#[trigger] islands[l]).tiles@.contains(p)
}

/// The first island with the tile is the one that is found.
pub proof fn lemma_stands_on(islands: Seq<Island>, p: GridPosition, id: IslandId, i: int)
    requires
        0 <= i <= islands.len(),
        forall|l: int| 0 <= l < i ==> !(#[trigger] islands[l]).tiles@.contains(p),
    ensures
        stands_on(islands, p, id) <==> (island_holding(islands, p, i) matches Some(h)
            && islands[h].id == id),
    decreases islands.len() - i,
{
    if i < islands.len() {
        if !islands[i].tiles@.contains(p) {
            lemma_stands_on(islands, p, id, i + 1);
        } else {
            if stands_on(islands, p, id) {
                let h = choose|h: int|
                    0 <= h < islands.len() && (#[trigger] islands[h]).id == id
                        && islands[h].tiles@.contains(p) && forall|l: int|
                        0 <= l < h ==> !(#[trigger] islands[l]).tiles@.contains(p);
                if i < h {
                    assert(!islands[i].tiles@.contains(p));
                }
                if h < i {
                    assert(!islands[h].tiles@.contains(p));
                }
            }
            if islands[i].id == id {
                assert(islands[i].tiles@.contains(p));
            }
        }
    }
}

/// The lesser of two times, as far as there are any.
pub open spec fn is_sooner_of(a: Option<u32>, b: Option<u32>, r: Option<u32>) -> bool {
    &&& r is None <==> a is None && b is None
    &&& r is Some ==> r == a || r == b
    &&& r is Some && a is Some ==> r->0 <= a->0
    &&& r is Some && b is Some ==> r->0 <= b->0
}

/// One more unit counts for its own side alone. On the island it is one unit more, adds what it is
/// worth in a fight and is there at once; wherever it is, the side's times of arrival and capture
/// are no later than its own.
#[verifier::rlimit(50)]
pub proof fn law_unit_counts_for_its_side(
    facts: IslandCampaignFacts,
    scene: CampaignScene,
    player: PlayerId,
    id: IslandId,
    sites: Seq<PropertySnapshot>,
    unit: UnitModel,
)
    ensures
        ({
            let next = with_unit(facts, scene, player, id, sites, unit);
            let here = stands_on(scene.islands.islands@, unit.position, id);
            let worth = combat_worth(unit.unit_type, unit.cost, unit.health);
            let arrival = landing_eta(scene, unit, id, scene.islands.islands.len() as int);
            let capture = crate::eta::capture_time(
                scene.map,
                scene.travel,
                unit,
                unit.position,
                sites,
            );
            &&& unit.faction == player ==> {
                &&& next.friendly_units == capped(
                    facts.friendly_units + (if here {
                        1int
                    } else {
                        0
                    }),
                )
                &&& next.friendly_combat_value == capped(
                    facts.friendly_combat_value + (if here {
                        worth
                    } else {
                        0
                    }),
                )
                &&& here ==> next.friendly_arrival_eta == Some(0u32)
                &&& !here ==> is_sooner_of(
                    facts.friendly_arrival_eta,
                    arrival,
                    next.friendly_arrival_eta,
                )
                &&& is_sooner_of(facts.friendly_capture_eta, capture, next.friendly_capture_eta)
                &&& next == (IslandCampaignFacts {
                    friendly_units: next.friendly_units,
                    friendly_combat_value: next.friendly_combat_value,
                    friendly_arrival_eta: next.friendly_arrival_eta,
                    friendly_capture_eta: next.friendly_capture_eta,
                    ..facts
                })
            }
            &&& unit.faction != player ==> {
                &&& next.enemy_units == capped(
                    facts.enemy_units + (if here {
                        1int
                    } else {
                        0
                    }),
                )
                &&& next.enemy_combat_value == capped(
                    facts.enemy_combat_value + (if here {
                        worth
                    } else {
                        0
                    }),
                )
                &&& here ==> next.enemy_arrival_eta == Some(0u32)
                &&& !here ==> is_sooner_of(
                    facts.enemy_arrival_eta,
                    arrival,
                    next.enemy_arrival_eta,
                )
                &&& is_sooner_of(facts.enemy_capture_eta, capture, next.enemy_capture_eta)
                &&& next == (IslandCampaignFacts {
                    enemy_units: next.enemy_units,
                    enemy_combat_value: next.enemy_combat_value,
                    enemy_arrival_eta: next.enemy_arrival_eta,
                    enemy_capture_eta: next.enemy_capture_eta,
                    ..facts
                })
            }
        }),
{
    lemma_stands_on(scene.islands.islands@, unit.position, id, 0);
    crate::eta_laws::law_combat_worth_is_a_share_of_the_price(
        unit.unit_type,
        unit.cost,
        unit.health,
    );
}

/// One of the assignments lists the unit as cargo.
pub open spec fn is_cargo(cargoes: Seq<CargoModel>, e: Entity) -> bool {
    exists|i: int| 0 <= i < cargoes.len() && (#[trigger] cargoes[i]).cargo_entities.contains(e)
}

proof fn lemma_cargo_slot(cargoes: Seq<CargoModel>, e: Entity, n: int)
    requires
        0 <= n <= cargoes.len(),
    ensures
        match crate::operations::cargo_slot(cargoes, e, n) {
            Some(i) => 0 <= i < n && cargoes[i].cargo_entities.contains(e) && forall|j: int|
                i < j < n ==> !(#[trigger] cargoes[j]).cargo_entities.contains(e),
            None => forall|j: int|
                0 <= j < n ==> !(#[trigger] cargoes[j]).cargo_entities.contains(e),
        },
    decreases n,
{
    if n > 0 && !cargoes[n - 1].cargo_entities.contains(e) {
        lemma_cargo_slot(cargoes, e, n - 1);
    }
}

/// Units count one by one, and only those that stand on the board on their own account: neither in
/// a transport nor waiting for one.
pub proof fn law_units_count_one_by_one(
    facts: IslandCampaignFacts,
    scene: CampaignScene,
    player: PlayerId,
    id: IslandId,
    sites: Seq<PropertySnapshot>,
    units: Seq<UnitModel>,
    more: UnitModel,
    cargoes: Seq<CargoModel>,
)
    ensures
        ({
            let n = units.len() as int;
            let rest = with_units(facts, scene, player, id, sites, units, cargoes, n);
            let all = with_units(
                facts,
                scene,
                player,
                id,
                sites,
                units.push(more),
                cargoes,
                n + 1,
            );
            &&& with_units(facts, scene, player, id, sites, units, cargoes, 0) == facts
            &&& more.transporting is None && !is_cargo(cargoes, more.entity) ==> all == with_unit(
                rest,
                scene,
                player,
                id,
                sites,
                more,
            )
            &&& more.transporting is Some || is_cargo(cargoes, more.entity) ==> all == rest
        }),
{
    lemma_units_prefix(facts, scene, player, id, sites, units, more, cargoes, units.len() as int);
    lemma_cargo_slot(cargoes, more.entity, cargoes.len() as int);
    if is_cargo(cargoes, more.entity) {
        let i = choose|i: int|
            0 <= i < cargoes.len() && (#[trigger] cargoes[i]).cargo_entities.contains(more.entity);
        assert(cargoes[i].cargo_entities.contains(more.entity));
    }
}

proof fn lemma_units_prefix(
    facts: IslandCampaignFacts,
    scene: CampaignScene,
    player: PlayerId,
    id: IslandId,
    sites: Seq<PropertySnapshot>,
    units: Seq<UnitModel>,
    more: UnitModel,
    cargoes: Seq<CargoModel>,
    n: int,
)
    requires
        0 <= n <= units.len(),
    ensures
        with_units(facts, scene, player, id, sites, units.push(more), cargoes, n) == with_units(
            facts,
            scene,
            player,
            id,
            sites,
            units,
            cargoes,
            n,
        ),
    decreases n,
{
    if n > 0 {
        lemma_units_prefix(facts, scene, player, id, sites, units, more, cargoes, n - 1);
    }
}

/// Cargo counts for the player alone: it adds what it is worth in a fight, and the player arrives
/// and captures no later than it does.
#[verifier::rlimit(50)]
pub proof fn law_cargo_counts_for_the_player(
    facts: IslandCampaignFacts,
    scene: CampaignScene,
    island: Island,
    sites: Seq<PropertySnapshot>,
    units: Seq<UnitModel>,
    assignment: CargoModel,
    unit: UnitModel,
)
    ensures
        ({
            let next = with_cargo(facts, scene, island, sites, units, assignment, unit);
            let arrival = arrival_time(
                assignment,
                units,
                scene.map,
                scene.registry,
                scene.travel,
                island.tiles@,
            );
            let after = if assignment.drop_position is Some {
                crate::eta::capture_time(
                    scene.map,
                    scene.travel,
                    unit,
                    assignment.drop_position->0,
                    sites,
                )
            } else {
                crate::eta::cautious_capture_time(
                    scene.map,
                    scene.registry,
                    scene.travel,
                    unit,
                    island.tiles@,
                    sites,
                )
            };
            &&& next.friendly_combat_value == capped(
                facts.friendly_combat_value + combat_worth(unit.unit_type, unit.cost, unit.health),
            )
            &&& is_sooner_of(facts.friendly_arrival_eta, arrival, next.friendly_arrival_eta)
            &&& is_sooner_of(
                facts.friendly_capture_eta,
                if arrival is Some && after is Some {
                    Some(capped(arrival->0 + after->0) as u32)
                } else {
                    None
                },
                next.friendly_capture_eta,
            )
            &&& next == (IslandCampaignFacts {
                friendly_combat_value: next.friendly_combat_value,
                friendly_arrival_eta: next.friendly_arrival_eta,
                friendly_capture_eta: next.friendly_capture_eta,
                ..facts
            })
        }),
{
    crate::eta_laws::law_combat_worth_is_a_share_of_the_price(
        unit.unit_type,
        unit.cost,
        unit.health,
    );
}

/// Cargo counts for no island but its own: where no assignment is for the island, nothing changes.
pub proof fn law_cargo_counts_for_its_island(
    facts: IslandCampaignFacts,
    scene: CampaignScene,
    id: IslandId,
    sites: Seq<PropertySnapshot>,
    units: Seq<UnitModel>,
    cargoes: Seq<CargoModel>,
    n: int,
)
    requires
        0 <= n <= units.len(),
        forall|i: int| 0 <= i < cargoes.len() ==> (#[trigger] cargoes[i]).island_id != id,
    ensures
        with_cargoes(facts, scene, id, sites, units, cargoes, n) == facts,
    decreases n,
{
    if n > 0 {
        law_cargo_counts_for_its_island(facts, scene, id, sites, units, cargoes, n - 1);
        lemma_cargo_slot(cargoes, units[n - 1].entity, cargoes.len() as int);
    }
}

/// The time to an island is the least of those to the islands in the list with its number.
pub proof fn law_landing_time_is_least(
    scene: CampaignScene,
    unit: UnitModel,
    id: IslandId,
    n: int,
)
    requires
        0 <= n <= scene.islands.islands.len(),
    ensures
        match landing_eta(scene, unit, id, n) {
            Some(t) => (exists|k: int|
                0 <= k < n && (#[trigger] scene.island_at(k)).id == id && island_eta(
                    scene.map,
                    scene.registry,
                    scene.travel,
                    unit,
                    scene.island_at(k).tiles@,
                ) == Some(t)) && forall|k: int|
                0 <= k < n && (#[trigger] scene.island_at(k)).id == id ==> {
                    let way = island_eta(
                        scene.map,
                        scene.registry,
                        scene.travel,
                        unit,
                        scene.island_at(k).tiles@,
                    );
                    way is Some ==> t <= way->0
                },
            None => forall|k: int|
                0 <= k < n && (#[trigger] scene.island_at(k)).id == id ==> island_eta(
                    scene.map,
                    scene.registry,
                    scene.travel,
                    unit,
                    scene.island_at(k).tiles@,
                ) is None,
        },
    decreases n,
{
    if n > 0 {
        law_landing_time_is_least(scene, unit, id, n - 1);
        if let Some(t) = landing_eta(scene, unit, id, n - 1) {
            let k = choose|k: int|
                0 <= k < n - 1 && (#[trigger] scene.island_at(k)).id == id && island_eta(
                    scene.map,
                    scene.registry,
                    scene.travel,
                    unit,
                    scene.island_at(k).tiles@,
                ) == Some(t);
            assert(scene.island_at(k).id == id);
        }
        assert(scene.island_at(n - 1) == scene.island_at(n - 1));
    }
}

/// An island on which the player has a building or a unit is reached already and needs no
/// transport. Any other is reached exactly if some transport serves it or can be built to, and then
/// in the time of the chosen one; the rest of what is known stays.
#[verifier::rlimit(50)]
pub proof fn law_island_is_reached_by_foothold_or_transport(
    facts: IslandCampaignFacts,
    scene: CampaignScene,
    player: PlayerId,
    island: Island,
)
    ensures
        ({
            let next = with_transport(facts, scene, player, island);
            let foothold = facts.friendly_properties > 0 || facts.friendly_units > 0;
            let owned = own_sites_of(scene, player, scene.islands.islands.len() as int);
            let served = exists|o: TransportOption| #[trigger]
                is_service(
                    scene.map,
                    scene.registry,
                    scene.travel,
                    player,
                    island,
                    scene.units(),
                    scene.states(player),
                    owned,
                    o,
                );
            &&& foothold ==> next.reachable && next.transport_eta == Some(0u32)
                && next.missing_expansion_package_cost == facts.missing_expansion_package_cost
            &&& !foothold ==> next.reachable == served && (next.transport_eta is Some == served)
            &&& !foothold && served ==> exists|o: TransportOption| #[trigger]
                is_service(
                    scene.map,
                    scene.registry,
                    scene.travel,
                    player,
                    island,
                    scene.units(),
                    scene.states(player),
                    owned,
                    o,
                ) && next.transport_eta == Some(o.eta)
            &&& next == (IslandCampaignFacts {
                reachable: next.reachable,
                transport_eta: next.transport_eta,
                missing_expansion_package_cost: next.missing_expansion_package_cost,
                ..facts
            })
        }),
{
    let owned = own_sites_of(scene, player, scene.islands.islands.len() as int);
    let options = island_options(
        scene.map,
        scene.registry,
        scene.travel,
        player,
        island,
        scene.units(),
        scene.states(player),
        owned,
    );
    let prefer = is_open_neutral(facts);
    law_choice_of_transport(scene.registry, options, prefer);
    if let Some(c) = chosen_option(scene.registry, options, prefer) {
        law_options_are_all_services(
            scene.map,
            scene.registry,
            scene.travel,
            player,
            island,
            scene.units(),
            scene.states(player),
            owned,
            c,
        );
    }
    assert forall|o: TransportOption| #[trigger]
        is_service(
            scene.map,
            scene.registry,
            scene.travel,
            player,
            island,
            scene.units(),
            scene.states(player),
            owned,
            o,
        ) implies options.len() > 0 by {
        law_options_are_all_services(
            scene.map,
            scene.registry,
            scene.travel,
            player,
            island,
            scene.units(),
            scene.states(player),
            owned,
            o,
        );
    }
}

/// The judgement in the list is the first one that was made on these facts.
pub open spec fn is_judgement_on(
    list: Seq<IslandJudgement>,
    facts: IslandCampaignFacts,
    k: int,
) -> bool {
    0 <= k < list.len() && list[k].facts == facts && forall|j: int|
        0 <= j < k ==> (#[trigger] list[j]).facts != facts
}

proof fn lemma_judgement_from(list: Seq<IslandJudgement>, facts: IslandCampaignFacts, i: int)
    requires
        0 <= i <= list.len(),
        forall|j: int| 0 <= j < i ==> (#[trigger] list[j]).facts != facts,
    ensures
        forall|k: int| #[trigger]
            is_judgement_on(list, facts, k) ==> judgement_on(list, facts, i) == Some(k),
        (forall|k: int| !#[trigger] is_judgement_on(list, facts, k)) ==> judgement_on(
            list,
            facts,
            i,
        ) is None,
    decreases list.len() - i,
{
    if i < list.len() {
        if list[i].facts == facts {
            assert(is_judgement_on(list, facts, i));
            assert forall|k: int| #[trigger] is_judgement_on(list, facts, k) implies k == i by {
                if i < k {
                    assert(list[i].facts != facts);
                }
            }
        } else {
            lemma_judgement_from(list, facts, i + 1);
        }
    }
}

/// The only island with something to capture, while it is contested, is merely watched: it asks
/// for nothing and costs nothing. On any other island the judgement on its facts and what that asks
/// for stand. An island that nothing was said about is watched and asks for nothing.
#[verifier::rlimit(50)]
pub proof fn law_sole_contested_island_is_watched(
    list: Seq<IslandJudgement>,
    facts: IslandCampaignFacts,
    sole: Option<IslandId>,
    island: IslandId,
    k: int,
)
    ensures
        ({
            let a = final_assessment(list, facts, sole, island);
            let r = final_requirement(list, facts, sole, island);
            let nothing = r.preferred_transport is None && r.transport_slots == 0 && r.capture_units
                == 0 && r.combat_budget == 0 && r.total_budget == 0;
            &&& is_judgement_on(list, facts, k) && sole == Some(island)
                && list[k].assessment.state == IslandCampaignState::Contested ==> nothing
                && a.decision == IslandCampaignDecision::Observe && a.required_budget == 0
                && a.allocated_budget == 0 && a.state == IslandCampaignState::Contested
            &&& is_judgement_on(list, facts, k) && !(sole == Some(island)
                && list[k].assessment.state == IslandCampaignState::Contested) ==> r
                == requirement_of(facts, list[k].assessment@, list[k].assault_budget) && a
                == revised(facts, list[k].assessment@, list[k].assault_budget)
            &&& (forall|j: int| !#[trigger] is_judgement_on(list, facts, j)) ==> nothing
                && a.decision == IslandCampaignDecision::Observe && a.required_budget == 0
        }),
{
    lemma_judgement_from(list, facts, 0);
}

/// The only island with something to capture is named exactly if there is exactly one.
pub proof fn law_sole_island_is_the_only_prize(facts: Seq<IslandCampaignFacts>)
    ensures
        match sole_island(facts) {
            Some(id) => exists|i: int|
                0 <= i < facts.len() && (#[trigger] facts[i]).island_id == id
                    && facts[i].capturable_properties > 0 && forall|j: int|
                    0 <= j < facts.len() && (#[trigger] facts[j]).capturable_properties > 0 ==> j
                        == i,
            None => forall|i: int|
                0 <= i < facts.len() && (#[trigger] facts[i]).capturable_properties > 0
                    ==> exists|j: int|
                    0 <= j < facts.len() && j != i && (#[trigger] facts[j]).capturable_properties
                        > 0,
        },
{
    if exists|i: int| crate::campaign_requirements::is_sole(facts, i) {
        let i = choose|i: int| crate::campaign_requirements::is_sole(facts, i);
        assert(crate::campaign_requirements::is_sole(facts, i));
        assert forall|j: int|
            0 <= j < facts.len() && (#[trigger] facts[j]).capturable_properties > 0 implies j == i by {}
        assert(facts[i].capturable_properties > 0);
    } else {
        assert forall|i: int|
            0 <= i < facts.len() && (
            #[trigger] facts[i]).capturable_properties > 0 implies exists|j: int|
            0 <= j < facts.len() && j != i && (#[trigger] facts[j]).capturable_properties > 0 by {
            assert(!crate::campaign_requirements::is_sole(facts, i));
        }
    }
}

/// The funds are those of the first entry of the player; without an entry there are none.
pub proof fn law_funds_are_those_of_the_player(list: Seq<PlayerFunds>, player: PlayerId, k: int)
    ensures
        0 <= k < list.len() && list[k].player_id == player && (forall|j: int|
            0 <= j < k ==> (#[trigger] list[j]).player_id != player) ==> funds_of(list, player, 0)
            == list[k].funds,
        (forall|j: int| 0 <= j < list.len() ==> (#[trigger] list[j]).player_id != player)
            ==> funds_of(list, player, 0) == 0,
{
    lemma_funds_from(list, player, k, 0);
}

proof fn lemma_funds_from(list: Seq<PlayerFunds>, player: PlayerId, k: int, i: int)
    requires
        0 <= i,
    ensures
        i <= k < list.len() && list[k].player_id == player && (forall|j: int|
            i <= j < k ==> (#[trigger] list[j]).player_id != player) ==> funds_of(list, player, i)
            == list[k].funds,
        (forall|j: int| i <= j < list.len() ==> (#[trigger] list[j]).player_id != player)
            ==> funds_of(list, player, i) == 0,
    decreases list.len() - i,
{
    if i < list.len() && list[i].player_id != player {
        lemma_funds_from(list, player, k, i + 1);
    }
}

/// The agenda has one entry for each island with a tile to go for, in the order of the islands:
/// every entry is that of some island, and no island with a tile is left out.
pub proof fn law_agenda_leaves_no_island_out(
    scene: CampaignScene,
    player: PlayerId,
    list: Seq<IslandJudgement>,
    minimum: Option<u32>,
    n: int,
)
    requires
        0 <= n <= scene.islands.islands.len(),
    ensures
        ({
            let all = island_candidates(scene, player, list, minimum, n);
            &&& forall|i: int|
                0 <= i < all.len() ==> exists|k: int|
                    0 <= k < n && #[trigger] island_candidate(scene, player, list, minimum, k)
                        == Some(#[trigger] all[i])
            &&& forall|k: int|
                0 <= k < n && #[trigger] island_candidate(scene, player, list, minimum, k) is Some
                    ==> all.contains(island_candidate(scene, player, list, minimum, k)->0)
        }),
    decreases n,
{
    if n > 0 {
        law_agenda_leaves_no_island_out(scene, player, list, minimum, n - 1);
        let rest = island_candidates(scene, player, list, minimum, n - 1);
        let all = island_candidates(scene, player, list, minimum, n);
        let last = island_candidate(scene, player, list, minimum, n - 1);
        assert forall|i: int| 0 <= i < all.len() implies exists|k: int|
            0 <= k < n && #[trigger] island_candidate(scene, player, list, minimum, k) == Some(
                #[trigger] all[i],
            ) by {
            if i < rest.len() {
                assert(all[i] == rest[i]);
                let k = choose|k: int|
                    0 <= k < n - 1 && #[trigger] island_candidate(scene, player, list, minimum, k)
                        == Some(rest[i]);
                assert(island_candidate(scene, player, list, minimum, k) == Some(all[i]));
            } else {
                assert(island_candidate(scene, player, list, minimum, n - 1) == Some(all[i]));
            }
        }
        assert forall|k: int|
            0 <= k < n && #[trigger] island_candidate(
                scene,
                player,
                list,
                minimum,
                k,
            ) is Some implies all.contains(
            island_candidate(scene, player, list, minimum, k)->0,
        ) by {
            let c = island_candidate(scene, player, list, minimum, k)->0;
            if last is Some {
                lemma_pushed(rest, last->0, c);
            }
        }
    }
}

/// An entry of the agenda speaks of its own island: the judgement, what it asks for, the sites that
/// pay off and the time of the transport go by the facts about that island.
pub proof fn law_entry_speaks_of_its_island(
    scene: CampaignScene,
    player: PlayerId,
    list: Seq<IslandJudgement>,
    minimum: Option<u32>,
    k: int,
)
    ensures
        island_candidate(scene, player, list, minimum, k) matches Some(c) ==> {
            let id = scene.island_at(k).id;
            let facts = facts_about(scene, player, id);
            &&& c.roi_production_sites == facts.roi_production_sites
            &&& c.transport_eta == facts.transport_eta
            &&& c.minimum_combat_purchase_cost == minimum
            &&& c.existing_operation is Some ==> c.existing_operation->0.island_id == id
                && c.target_position == c.existing_operation->0.target_position
        },
{
    let id = scene.island_at(k).id;
    lemma_operation_of(scene.operations(player), id, 0);
}

proof fn lemma_operation_of(list: Seq<OperationModel>, id: IslandId, i: int)
    requires
        0 <= i,
    ensures
        crate::campaign_facts::operation_for(list, id, i) matches Some(k) ==> list[k].island_id == id,
    decreases list.len() - i,
{
    if i < list.len() && list[i].island_id != id {
        lemma_operation_of(list, id, i + 1);
    }
}

/// A unit fresh from production is what its stats say, whole, fuelled, empty and outside.
pub proof fn law_fresh_unit_is_whole(stats: UnitStats, player: PlayerId, position: GridPosition)
    ensures
        ({
            let u = produced_unit(stats, player, position);
            &&& u.faction == player && u.position == position
            &&& u.unit_type == stats.unit_type && u.cost == stats.cost && u.movement_type
                == stats.movement_type && u.max_movement == stats.max_movement
            &&& u.min_range == stats.min_range && u.max_range == stats.max_range && u.can_capture
                == stats.can_capture && u.can_supply == stats.can_supply
            &&& u.max_cargo == stats.max_cargo && u.free_cargo_slots == stats.max_cargo
                && u.loaded.len() == 0 && u.loadable == stats.loadable_unit_types@
            &&& u.max_fuel == stats.max_fuel && u.fuel == Some(stats.max_fuel) && u.max_ammo1
                == stats.max_ammo1 && u.max_ammo2 == stats.max_ammo2
            &&& u.health.current == 100 && u.health.max == 100
            &&& u.transporting is None
        }),
{
}

/// What is known of cargo is what the first entry for it says.
pub proof fn law_cargo_is_as_first_listed(units: Seq<UnitModel>, e: Entity, k: int)
    ensures
        0 <= k < units.len() && units[k].entity == e && (forall|j: int|
            0 <= j < k ==> (#[trigger] units[j]).entity != e) ==> first_unit(units, e, 0) == Some(
            units[k],
        ),
        (forall|j: int| 0 <= j < units.len() ==> (#[trigger] units[j]).entity != e) ==> first_unit(
            units,
            e,
            0,
        ) is None,
{
    lemma_first_unit(units, e, k, 0);
}

proof fn lemma_first_unit(units: Seq<UnitModel>, e: Entity, k: int, i: int)
    requires
        0 <= i,
    ensures
        i <= k < units.len() && units[k].entity == e && (forall|j: int|
            i <= j < k ==> (#[trigger] units[j]).entity != e) ==> first_unit(units, e, i) == Some(
            units[k],
        ),
        (forall|j: int| i <= j < units.len() ==> (#[trigger] units[j]).entity != e) ==> first_unit(
            units,
            e,
            i,
        ) is None,
    decreases units.len() - i,
{
    if i < units.len() && units[i].entity != e {
        lemma_first_unit(units, e, k, i + 1);
    }
}

/// Cargo that is aboard keeps nobody waiting; cargo outside takes its own way to the pickup; cargo
/// that is gone is never there.
pub proof fn law_cargo_is_waited_for_outside(
    map: GameMap,
    travel: TravelTable,
    units: Seq<UnitModel>,
    transport: Entity,
    member: Entity,
    pickup: GridPosition,
)
    ensures
        ({
            let r = member_wait(map, travel, units, transport, member, pickup);
            let u = first_unit(units, member, 0);
            &&& u is None ==> r is None
            &&& u is Some && u->0.transporting == Some(transport) ==> r == Some(0u32)
            &&& u is Some && u->0.transporting != Some(transport) ==> r == eta(
                map,
                travel,
                Traveller {
                    player_id: u->0.faction,
                    movement_type: u->0.movement_type,
                    max_movement: u->0.max_movement,
                },
                u->0.position,
                pickup,
            )
        }),
{
}

/// A transport makes for the landing tile if that is known, else for the island.
pub proof fn law_delivery_goes_to_the_landing_tile(
    map: GameMap,
    registry: MasterDataRegistry,
    travel: TravelTable,
    unit: UnitModel,
    drop_position: Option<GridPosition>,
    tiles: Seq<GridPosition>,
)
    ensures
        ({
            let r = delivery_eta(map, registry, travel, unit, drop_position, tiles);
            &&& drop_position is Some ==> r == drop_eta(
                map,
                registry,
                travel,
                unit,
                drop_position->0,
            )
            &&& drop_position is None ==> r == island_eta(map, registry, travel, unit, tiles)
        }),
{
}

} // verus!
