//! Which transport can serve an island, and when cargo that is on its way gets there.
use crate::arith::{saturating_mul, saturating_product};
use crate::entity::Entity;
use crate::eta::{
    drop_eta, eta, eta_between, island_eta, lesser, min_option, traveller_of, unit_eta_to_drop,
    unit_eta_to_island, unit_stats_for_type, unit_traveller,
};
use crate::grid::{GameMap, GridPosition, Terrain};
use crate::island_campaign::{ExistingCampaignOperation, OperationModel};
use crate::islands::{Island, IslandId};
use crate::master_data::MasterDataRegistry;
use crate::missions::TransportPhase;
use crate::operations::{
    find_state, is_live, is_live_transport_phase, state_in, AssignedTransportState, CargoAssignment,
    CargoModel,
};
use crate::order::{
    first_least, gather, key_views, keys_index, least_index, lemma_first_least, lemma_sort_prefix,
    lex_less, sort_order, stable_order, stands_before,
};
use crate::snapshots::{models, PropertySnapshot, UnitModel, UnitSnapshot};
use crate::travel::TravelTable;
use crate::units::{Health, PlayerId, UnitStats, UnitType};
use vstd::prelude::*;

verus! {

/// The unit types in the order of the master data.
pub open spec fn listed_types(units: Seq<UnitStats>) -> Seq<UnitType> {
    Seq::new(units.len(), |i: int| units[i].unit_type)
}

/// The keys by which unit types are ordered.
pub open spec fn type_keys(registry: MasterDataRegistry, types: Seq<UnitType>) -> Seq<Seq<u64>> {
    Seq::new(types.len(), |i: int| seq![registry.rank(types[i]) as u64])
}

/// The first `n` types without those that repeat the one before.
pub open spec fn without_repeats(types: Seq<UnitType>, n: int) -> Seq<UnitType>
    decreases n,
{
    if n <= 0 {
        Seq::empty()
    } else {
        let rest = without_repeats(types, n - 1);
        if n > 1 && types[n - 1] == types[n - 2] {
            rest
        } else {
            rest.push(types[n - 1])
        }
    }
}

/// All unit types of the master data in the order of their rank.
pub open spec fn master_types(registry: MasterDataRegistry) -> Seq<UnitType> {
    let types = listed_types(registry.units@);
    let sorted = gather(types, sort_order(type_keys(registry, types)));
    without_repeats(sorted, sorted.len() as int)
}

/// All unit types of the master data in the order of their rank.
pub fn all_master_unit_types(registry: &MasterDataRegistry) -> (r: Vec<UnitType>)
    ensures
        r@ == master_types(*registry),
{
    let ghost types = listed_types(registry.units@);
    let mut keys: Vec<Vec<u64>> = Vec::new();
    let mut n: usize = 0;
    while n < registry.units.len()
        invariant
            n <= registry.units.len(),
            types == listed_types(registry.units@),
            keys.len() == n,
            forall|i: int|
                0 <= i < n ==> (#[trigger] keys[i])@ == seq![registry.rank(types[i]) as u64],
        decreases registry.units.len() - n,
    {
        let mut key: Vec<u64> = Vec::new();
        key.push(registry.campaign_unit_type_rank(registry.units[n].unit_type) as u64);
        assert(key@ =~= seq![registry.rank(types[n as int]) as u64]);
        keys.push(key);
        n += 1;
    }
    assert(key_views(keys@) =~= type_keys(*registry, types));
    let order = stable_order(&keys);
    let ghost sorted = gather(types, sort_order(type_keys(*registry, types)));
    proof {
        lemma_sort_prefix(type_keys(*registry, types), types.len() as int);
    }
    let mut r: Vec<UnitType> = Vec::new();
    let mut k: usize = 0;
    while k < order.len()
        invariant
            k <= order.len(),
            order.len() == registry.units.len(),
            types == listed_types(registry.units@),
            sorted == gather(types, sort_order(type_keys(*registry, types))),
            sorted.len() == order.len(),
            forall|i: int|
                0 <= i < order.len() ==> #[trigger] order[i] == sort_order(
                    type_keys(*registry, types),
                )[i],
            forall|i: int| 0 <= i < order.len() ==> #[trigger] order[i] < registry.units.len(),
            r@ == without_repeats(sorted, k as int),
        decreases order.len() - k,
    {
        let here = registry.units[order[k]].unit_type;
        assert(here == sorted[k as int]);
        let repeats: bool = if k > 0 {
            let before = registry.units[order[k - 1]].unit_type;
            assert(before == sorted[k - 1]);
            here == before
        } else {
            false
        };
        if !repeats {
            r.push(here);
        }
        k += 1;
    }
    r
}

/// Capitals, factories, ports and airports decide a campaign.
pub open spec fn is_strategic(terrain: Terrain) -> bool {
    terrain == Terrain::Capital || terrain == Terrain::Factory || terrain == Terrain::Port || terrain
        == Terrain::Airport
}

/// Whether a building on the terrain decides a campaign.
pub fn is_strategic_site(terrain: Terrain) -> (r: bool)
    ensures
        r == is_strategic(terrain),
{
    match terrain {
        Terrain::Capital | Terrain::Factory | Terrain::Port | Terrain::Airport => true,
        _ => false,
    }
}

/// Factories, ports and airports pay for their capture.
pub open spec fn pays_off(terrain: Terrain) -> bool {
    terrain == Terrain::Factory || terrain == Terrain::Port || terrain == Terrain::Airport
}

/// Whether a building on the terrain pays for its capture.
pub fn is_roi_site(terrain: Terrain) -> (r: bool)
    ensures
        r == pays_off(terrain),
{
    match terrain {
        Terrain::Factory | Terrain::Port | Terrain::Airport => true,
        _ => false,
    }
}

/// Where a transport comes from.
#[derive(Clone, Copy, Debug, PartialEq, Eq, Structural)]
pub enum TransportSource {
    /// It is on the board.
    Held(Entity),
    /// It can be built there.
    Producible(GridPosition),
}

/// A transport that can serve an island.
#[derive(Clone, Copy, Debug, PartialEq, Eq, Structural)]
pub struct TransportOption {
    pub unit_type: UnitType,
    pub cost: u32,
    pub eta: u32,
    pub source: TransportSource,
}

/// What the transport is assigned to lets it serve the island: it is free and empty and has room,
/// or it serves that island already and carries nothing else.
pub open spec fn assignment_allows(
    unit: UnitModel,
    state: Option<AssignedTransportState>,
    island: IslandId,
) -> bool {
    match state {
        None => unit.loaded.len() == 0 && unit.free_cargo_slots > 0,
        Some(AssignedTransportState::Forming(target, assigned)) => assigned && target == Some(
            island,
        ),
        Some(AssignedTransportState::Phase(phase, target, assigned)) => assigned && is_live(phase)
            && target == Some(island),
        Some(AssignedTransportState::Other) => false,
    }
}

/// The unit is a transport of the player that can serve the island.
pub open spec fn can_serve(
    unit: UnitModel,
    states: Seq<(Entity, AssignedTransportState)>,
    player: PlayerId,
    island: IslandId,
) -> bool {
    &&& unit.faction == player
    &&& unit.transporting is None
    &&& (unit.fuel matches Some(fuel) ==> fuel > 0)
    &&& assignment_allows(unit, state_in(states, unit.entity), island)
    &&& (unit.free_cargo_slots > 0 || unit.loaded.len() > 0)
    &&& (unit.unit_type == UnitType::TransportHelicopter || unit.unit_type == UnitType::Lander)
}

/// The transports on the board among the first `n` units that can get to the island.
pub open spec fn held_options(
    map: GameMap,
    registry: MasterDataRegistry,
    travel: TravelTable,
    player: PlayerId,
    island: Island,
    units: Seq<UnitModel>,
    states: Seq<(Entity, AssignedTransportState)>,
    n: int,
) -> Seq<TransportOption>
    decreases n,
{
    if n <= 0 {
        Seq::empty()
    } else {
        let rest = held_options(map, registry, travel, player, island, units, states, n - 1);
        let unit = units[n - 1];
        match island_eta(map, registry, travel, unit, island.tiles@) {
            Some(eta) => if can_serve(unit, states, player, island.id) {
                rest.push(
                    TransportOption {
                        unit_type: unit.unit_type,
                        cost: unit.cost,
                        eta,
                        source: TransportSource::Held(unit.entity),
                    },
                )
            } else {
                rest
            },
            None => rest,
        }
    }
}

/// A unit fresh from production.
pub open spec fn produced_unit(stats: UnitStats, player: PlayerId, position: GridPosition) -> UnitModel {
    UnitModel {
        entity: Entity { bits: 0x1_FFFF_FFFF },
        faction: player,
        position,
        unit_type: stats.unit_type,
        cost: stats.cost,
        movement_type: stats.movement_type,
        max_movement: stats.max_movement,
        max_fuel: stats.max_fuel,
        max_ammo1: stats.max_ammo1,
        max_ammo2: stats.max_ammo2,
        min_range: stats.min_range,
        max_range: stats.max_range,
        can_capture: stats.can_capture,
        can_supply: stats.can_supply,
        max_cargo: stats.max_cargo,
        loadable: stats.loadable_unit_types@,
        health: Health { current: 100, max: 100 },
        fuel: Some(stats.max_fuel),
        transporting: None,
        free_cargo_slots: stats.max_cargo,
        loaded: Seq::empty(),
    }
}

/// The transports of the type that the first `n` buildings can build and that get to the island;
/// building takes one turn more.
pub open spec fn built_options(
    map: GameMap,
    registry: MasterDataRegistry,
    travel: TravelTable,
    player: PlayerId,
    tiles: Seq<GridPosition>,
    stats: UnitStats,
    unit_type: UnitType,
    owned: Seq<PropertySnapshot>,
    n: int,
) -> Seq<TransportOption>
    decreases n,
{
    if n <= 0 {
        Seq::empty()
    } else {
        let rest = built_options(
            map,
            registry,
            travel,
            player,
            tiles,
            stats,
            unit_type,
            owned,
            n - 1,
        );
        let site = owned[n - 1];
        match island_eta(
            map,
            registry,
            travel,
            produced_unit(stats, player, site.position),
            tiles,
        ) {
            Some(eta) => if registry.builds_type(site.property.terrain, unit_type) {
                rest.push(
                    TransportOption {
                        unit_type,
                        cost: stats.cost,
                        eta: eta.saturating_add(1),
                        source: TransportSource::Producible(site.position),
                    },
                )
            } else {
                rest
            },
            None => rest,
        }
    }
}

/// The transports of the type that can be built.
pub open spec fn type_options(
    map: GameMap,
    registry: MasterDataRegistry,
    travel: TravelTable,
    player: PlayerId,
    tiles: Seq<GridPosition>,
    unit_type: UnitType,
    owned: Seq<PropertySnapshot>,
) -> Seq<TransportOption> {
    match registry.unit(unit_type) {
        Some(stats) => built_options(
            map,
            registry,
            travel,
            player,
            tiles,
            stats,
            unit_type,
            owned,
            owned.len() as int,
        ),
        None => Seq::empty(),
    }
}

/// All transports that can serve the island: those on the board, then helicopters and landers
/// that can be built.
pub open spec fn unsorted_options(
    map: GameMap,
    registry: MasterDataRegistry,
    travel: TravelTable,
    player: PlayerId,
    island: Island,
    units: Seq<UnitModel>,
    states: Seq<(Entity, AssignedTransportState)>,
    owned: Seq<PropertySnapshot>,
) -> Seq<TransportOption> {
    held_options(map, registry, travel, player, island, units, states, units.len() as int)
        + type_options(
        map,
        registry,
        travel,
        player,
        island.tiles@,
        UnitType::TransportHelicopter,
        owned,
    ) + type_options(map, registry, travel, player, island.tiles@, UnitType::Lander, owned)
}

/// Held before buildable; held by entity, buildable by row and column.
pub open spec fn source_key(source: TransportSource) -> Seq<u64> {
    match source {
        TransportSource::Held(e) => seq![0u64, e.bits, 0, 0],
        TransportSource::Producible(p) => seq![1u64, 0, p.y as u64, p.x as u64],
    }
}

/// Held before buildable; held by entity, buildable by row and column.
pub fn transport_source_key(source: TransportSource) -> (r: (u64, u64, u64, u64))
    ensures
        source_key(source) == seq![r.0, r.1, r.2, r.3],
{
    match source {
        TransportSource::Held(e) => (0, e.bits, 0, 0),
        TransportSource::Producible(p) => (1, 0, p.y as u64, p.x as u64),
    }
}

/// The cheaper one first; then by type, source and time.
pub open spec fn fallback_key(registry: MasterDataRegistry, option: TransportOption) -> Seq<u64> {
    let s = source_key(option.source);
    seq![
        option.cost as u64,
        registry.rank(option.unit_type) as u64,
        s[0],
        s[1],
        s[2],
        s[3],
        option.eta as u64,
    ]
}

/// The cheaper one first; then by type, source and time.
pub fn transport_fallback_key(registry: &MasterDataRegistry, option: TransportOption) -> (r: Vec<
    u64,
>)
    ensures
        r@ == fallback_key(*registry, option),
{
    let s = transport_source_key(option.source);
    let mut r: Vec<u64> = Vec::new();
    r.push(option.cost as u64);
    r.push(registry.campaign_unit_type_rank(option.unit_type) as u64);
    r.push(s.0);
    r.push(s.1);
    r.push(s.2);
    r.push(s.3);
    r.push(option.eta as u64);
    assert(r@ =~= fallback_key(*registry, option));
    r
}

/// The keys of all options.
pub open spec fn fallback_keys(registry: MasterDataRegistry, options: Seq<TransportOption>) -> Seq<
    Seq<u64>,
> {
    Seq::new(options.len(), |i: int| fallback_key(registry, options[i]))
}

/// All transports that can serve the island, in order.
pub open spec fn island_options(
    map: GameMap,
    registry: MasterDataRegistry,
    travel: TravelTable,
    player: PlayerId,
    island: Island,
    units: Seq<UnitModel>,
    states: Seq<(Entity, AssignedTransportState)>,
    owned: Seq<PropertySnapshot>,
) -> Seq<TransportOption> {
    let options = unsorted_options(
        map,
        registry,
        travel,
        player,
        island,
        units,
        states,
        owned,
    );
    gather(options, sort_order(fallback_keys(registry, options)))
}

fn serves(
    unit: &UnitSnapshot,
    states: &Vec<(Entity, AssignedTransportState)>,
    player: PlayerId,
    island: IslandId,
) -> (r: bool)
    ensures
        r == can_serve(unit@, states@, player, island),
{
    let allowed: bool = match find_state(states, unit.entity) {
        None => unit.loaded_cargo_entities.len() == 0 && unit.free_cargo_slots > 0,
        Some(AssignedTransportState::Forming(target, assigned)) => {
            let same: bool = match target {
                Some(id) => id == island,
                None => false,
            };
            assigned && same
        },
        Some(AssignedTransportState::Phase(phase, target, assigned)) => {
            let same: bool = match target {
                Some(id) => id == island,
                None => false,
            };
            assigned && is_live_transport_phase(phase) && same
        },
        Some(AssignedTransportState::Other) => false,
    };
    let fuelled: bool = match unit.fuel {
        Some(fuel) => fuel > 0,
        None => true,
    };
    unit.faction == player && unit.transporting.is_none() && fuelled && allowed && (
    unit.free_cargo_slots > 0 || unit.loaded_cargo_entities.len() > 0) && (unit.stats.unit_type
        == UnitType::TransportHelicopter || unit.stats.unit_type == UnitType::Lander)
}

fn fresh_unit(stats: &UnitStats, player: PlayerId, position: GridPosition) -> (r: UnitSnapshot)
    ensures
        r@ == produced_unit(*stats, player, position),
{
    let r = UnitSnapshot {
        entity: Entity::placeholder(),
        faction: player,
        position,
        stats: stats.duplicate(),
        health: Health { current: 100, max: 100 },
        fuel: Some(stats.max_fuel),
        transporting: None,
        free_cargo_slots: stats.max_cargo,
        loaded_cargo_entities: Vec::new(),
    };
    assert(r@.entity == (Entity { bits: 0x1_FFFF_FFFF }));
    assert(r@.loaded =~= Seq::empty());
    r
}

fn add_built_options(
    map: &GameMap,
    registry: &MasterDataRegistry,
    travel: &TravelTable,
    player: PlayerId,
    island: &Island,
    unit_type: UnitType,
    owned: &Vec<PropertySnapshot>,
    options: &mut Vec<TransportOption>,
)
    ensures
        final(options)@ == old(options)@ + type_options(
            *map,
            *registry,
            *travel,
            player,
            island.tiles@,
            unit_type,
            owned@,
        ),
{
    let ghost before = options@;
    if let Some(stats) = unit_stats_for_type(registry, unit_type) {
        let mut n: usize = 0;
        while n < owned.len()
            invariant
                n <= owned.len(),
                options@ == before + built_options(
                    *map,
                    *registry,
                    *travel,
                    player,
                    island.tiles@,
                    *stats,
                    unit_type,
                    owned@,
                    n as int,
                ),
            decreases owned.len() - n,
        {
            let site = owned[n];
            if registry.can_produce_unit(site.property.terrain, unit_type) {
                let unit = fresh_unit(stats, player, site.position);
                if let Some(eta) = unit_eta_to_island(map, registry, travel, &unit, island) {
                    options.push(
                        TransportOption {
                            unit_type,
                            cost: stats.cost,
                            eta: eta.saturating_add(1),
                            source: TransportSource::Producible(site.position),
                        },
                    );
                }
            }
            n += 1;
        }
    } else {
        assert(options@ =~= before + Seq::<TransportOption>::empty());
    }
}

/// All transports that can serve the island, in order.
pub fn transport_options_for_island(
    map: &GameMap,
    registry: &MasterDataRegistry,
    travel: &TravelTable,
    player_id: PlayerId,
    island: &Island,
    units: &Vec<UnitSnapshot>,
    assigned_transport_phases: &Vec<(Entity, AssignedTransportState)>,
    owned_properties: &Vec<PropertySnapshot>,
) -> (r: Vec<TransportOption>)
    ensures
        r@ == island_options(
            *map,
            *registry,
            *travel,
            player_id,
            *island,
            models(units@),
            assigned_transport_phases@,
            owned_properties@,
        ),
{
    let ghost all = models(units@);
    let mut options: Vec<TransportOption> = Vec::new();
    let mut n: usize = 0;
    while n < units.len()
        invariant
            n <= units.len(),
            all == models(units@),
            options@ == held_options(
                *map,
                *registry,
                *travel,
                player_id,
                *island,
                all,
                assigned_transport_phases@,
                n as int,
            ),
        decreases units.len() - n,
    {
        let unit = &units[n];
        assert(all[n as int] == unit@);
        if serves(unit, assigned_transport_phases, player_id, island.id) {
            if let Some(eta) = unit_eta_to_island(map, registry, travel, unit, island) {
                options.push(
                    TransportOption {
                        unit_type: unit.stats.unit_type,
                        cost: unit.stats.cost,
                        eta,
                        source: TransportSource::Held(unit.entity),
                    },
                );
            }
        }
        n += 1;
    }
    add_built_options(
        map,
        registry,
        travel,
        player_id,
        island,
        UnitType::TransportHelicopter,
        owned_properties,
        &mut options,
    );
    add_built_options(
        map,
        registry,
        travel,
        player_id,
        island,
        UnitType::Lander,
        owned_properties,
        &mut options,
    );
    sort_options(registry, &options)
}

fn sort_options(registry: &MasterDataRegistry, options: &Vec<TransportOption>) -> (r: Vec<
    TransportOption,
>)
    ensures
        r@ == gather(options@, sort_order(fallback_keys(*registry, options@))),
{
    let keys = option_keys(registry, options);
    let order = stable_order(&keys);
    let mut r: Vec<TransportOption> = Vec::new();
    let mut k: usize = 0;
    while k < order.len()
        invariant
            k <= order.len(),
            order.len() == options.len(),
            forall|i: int| 0 <= i < order.len() ==> #[trigger] order[i] < options.len(),
            r.len() == k,
            forall|i: int| 0 <= i < k ==> #[trigger] r[i] == options[order[i] as int],
        decreases order.len() - k,
    {
        r.push(options[order[k]]);
        k += 1;
    }
    proof {
        lemma_sort_prefix(fallback_keys(*registry, options@), options.len() as int);
        assert(r@ =~= gather(options@, sort_order(fallback_keys(*registry, options@))));
    }
    r
}

fn option_keys(registry: &MasterDataRegistry, options: &Vec<TransportOption>) -> (r: Vec<Vec<u64>>)
    ensures
        r.len() == options.len(),
        key_views(r@) == fallback_keys(*registry, options@),
{
    let mut keys: Vec<Vec<u64>> = Vec::new();
    let mut n: usize = 0;
    while n < options.len()
        invariant
            n <= options.len(),
            keys.len() == n,
            forall|i: int|
                0 <= i < n ==> (#[trigger] keys[i])@ == fallback_key(*registry, options[i]),
        decreases options.len() - n,
    {
        keys.push(transport_fallback_key(registry, options[n]));
        n += 1;
    }
    assert(key_views(keys@) =~= fallback_keys(*registry, options@));
    keys
}

/// The helicopters among the first `n` options.
pub open spec fn helicopters(options: Seq<TransportOption>, n: int) -> Seq<TransportOption>
    decreases n,
{
    if n <= 0 {
        Seq::empty()
    } else if options[n - 1].unit_type == UnitType::TransportHelicopter {
        helicopters(options, n - 1).push(options[n - 1])
    } else {
        helicopters(options, n - 1)
    }
}

/// Held before buildable, then the cheaper one; then by entity, place and time.
pub open spec fn helicopter_key(option: TransportOption) -> Seq<u64> {
    let s = source_key(option.source);
    seq![s[0], option.cost as u64, s[1], s[2], s[3], option.eta as u64]
}

/// The keys of all helicopters.
pub open spec fn helicopter_keys(options: Seq<TransportOption>) -> Seq<Seq<u64>> {
    Seq::new(options.len(), |i: int| helicopter_key(options[i]))
}

/// A helicopter can be built.
pub open spec fn helicopter_producible(options: Seq<TransportOption>) -> bool {
    exists|i: int|
        0 <= i < options.len() && (#[trigger] options[i]).unit_type == UnitType::TransportHelicopter
            && options[i].source is Producible
}

/// The transport that is chosen: where helicopters are preferred and one can be built, the first
/// helicopter, those on the board before those to be built; else the first of all.
pub open spec fn chosen_option(
    registry: MasterDataRegistry,
    options: Seq<TransportOption>,
    prefer_helicopter: bool,
) -> Option<TransportOption> {
    if prefer_helicopter && helicopter_producible(options) {
        let list = helicopters(options, options.len() as int);
        if list.len() > 0 {
            Some(list[first_least(helicopter_keys(list), list.len() as int)])
        } else {
            None
        }
    } else if options.len() > 0 {
        Some(options[first_least(fallback_keys(registry, options), options.len() as int)])
    } else {
        None
    }
}

/// The transport that is chosen. An island that is open and neutral prefers helicopters, provided
/// that one can be built; a helicopter on the board is used first.
pub fn select_transport_option(
    registry: &MasterDataRegistry,
    options: &Vec<TransportOption>,
    prefer_producible_helicopter: bool,
) -> (r: Option<TransportOption>)
    ensures
        r == chosen_option(*registry, options@, prefer_producible_helicopter),
{
    let mut producible: bool = false;
    let mut list: Vec<TransportOption> = Vec::new();
    let mut keys: Vec<Vec<u64>> = Vec::new();
    let mut n: usize = 0;
    while n < options.len()
        invariant
            n <= options.len(),
            producible == exists|i: int|
                0 <= i < n && (#[trigger] options[i]).unit_type == UnitType::TransportHelicopter
                    && options[i].source is Producible,
            list@ == helicopters(options@, n as int),
            keys.len() == list.len(),
            forall|i: int| 0 <= i < keys.len() ==> (#[trigger] keys[i])@ == helicopter_key(list[i]),
        decreases options.len() - n,
    {
        let option = options[n];
        if option.unit_type == UnitType::TransportHelicopter {
            let buildable: bool = match option.source {
                TransportSource::Producible(_) => true,
                TransportSource::Held(_) => false,
            };
            let s = transport_source_key(option.source);
            let mut key: Vec<u64> = Vec::new();
            key.push(s.0);
            key.push(option.cost as u64);
            key.push(s.1);
            key.push(s.2);
            key.push(s.3);
            key.push(option.eta as u64);
            assert(key@ =~= helicopter_key(option));
            keys.push(key);
            list.push(option);
            if buildable {
                assert(options[n as int].source is Producible);
                producible = true;
            }
        }
        n += 1;
    }
    if prefer_producible_helicopter && producible {
        assert(key_views(keys@) =~= helicopter_keys(list@));
        match least_index(&keys) {
            Some(i) => Some(list[i]),
            None => None,
        }
    } else {
        let all = option_keys(registry, options);
        match least_index(&all) {
            Some(i) => Some(options[i]),
            None => None,
        }
    }
}

/// The first unit from index `i` on that is the entity.
pub open spec fn first_unit(units: Seq<UnitModel>, e: Entity, i: int) -> Option<UnitModel>
    decreases units.len() - i,
{
    if i >= units.len() {
        None
    } else if units[i].entity == e {
        Some(units[i])
    } else {
        first_unit(units, e, i + 1)
    }
}

/// Finds the first unit that is the entity.
pub fn find_first_unit(units: &Vec<UnitSnapshot>, e: Entity) -> (r: Option<&UnitSnapshot>)
    ensures
        match r {
            Some(unit) => first_unit(models(units@), e, 0) == Some(unit@),
            None => first_unit(models(units@), e, 0) is None,
        },
{
    let ghost all = models(units@);
    let mut i: usize = 0;
    while i < units.len()
        invariant
            i <= units.len(),
            all == models(units@),
            first_unit(all, e, 0) == first_unit(all, e, i as int),
        decreases units.len() - i,
    {
        assert(all[i as int] == units[i as int]@);
        if units[i].entity == e {
            return Some(&units[i]);
        }
        i += 1;
    }
    None
}

/// How long until a unit of the cargo is where it is fetched: no time if it is aboard; none if it is
/// gone or cannot get there.
pub open spec fn member_wait(
    map: GameMap,
    travel: TravelTable,
    units: Seq<UnitModel>,
    transport: Entity,
    member: Entity,
    pickup: GridPosition,
) -> Option<u32> {
    match first_unit(units, member, 0) {
        Some(unit) => if unit.transporting == Some(transport) {
            Some(0u32)
        } else {
            eta(map, travel, traveller_of(unit), unit.position, pickup)
        },
        None => None,
    }
}

/// How long until all of the first `n` units of the cargo are where they are fetched; none if one
/// of them is gone or cannot get there.
pub open spec fn cargo_wait(
    map: GameMap,
    travel: TravelTable,
    units: Seq<UnitModel>,
    transport: Entity,
    cargo: Seq<Entity>,
    pickup: GridPosition,
    n: int,
) -> Option<u32>
    decreases n,
{
    if n <= 0 {
        Some(0)
    } else {
        match (
            cargo_wait(map, travel, units, transport, cargo, pickup, n - 1),
            member_wait(map, travel, units, transport, cargo[n - 1], pickup),
        ) {
            (Some(wait), Some(own)) => if own >= wait {
                Some(own)
            } else {
                Some(wait)
            },
            _ => None,
        }
    }
}

/// In how many turns a transport gets from where it is to where it lands its cargo: to the landing
/// tile if that is known, else to the island.
pub open spec fn delivery_eta(
    map: GameMap,
    registry: MasterDataRegistry,
    travel: TravelTable,
    unit: UnitModel,
    drop_position: Option<GridPosition>,
    tiles: Seq<GridPosition>,
) -> Option<u32> {
    match drop_position {
        Some(p) => drop_eta(map, registry, travel, unit, p),
        None => island_eta(map, registry, travel, unit, tiles),
    }
}

/// In how many turns cargo that is being fetched or carried gets to its island. Before it is
/// aboard, transport and cargo wait for the later of the two, and boarding takes a turn.
pub open spec fn arrival_time(
    assignment: CargoModel,
    units: Seq<UnitModel>,
    map: GameMap,
    registry: MasterDataRegistry,
    travel: TravelTable,
    tiles: Seq<GridPosition>,
) -> Option<u32> {
    match assignment.phase {
        TransportPhase::Return => None,
        TransportPhase::Drop => Some(0),
        TransportPhase::Transit => match first_unit(units, assignment.transport_entity, 0) {
            Some(t) => delivery_eta(map, registry, travel, t, assignment.drop_position, tiles),
            None => None,
        },
        TransportPhase::Pickup => match (
            first_unit(units, assignment.transport_entity, 0),
            assignment.pickup_position,
        ) {
            (Some(t), Some(pickup)) => match (
                eta(map, travel, traveller_of(t), t.position, pickup),
                cargo_wait(
                    map,
                    travel,
                    units,
                    t.entity,
                    assignment.cargo_entities,
                    pickup,
                    assignment.cargo_entities.len() as int,
                ),
                delivery_eta(
                    map,
                    registry,
                    travel,
                    (UnitModel { position: pickup, ..t }),
                    assignment.drop_position,
                    tiles,
                ),
            ) {
                (Some(a), Some(b), Some(c)) => {
                    let later = if a >= b {
                        a
                    } else {
                        b
                    };
                    Some(later.saturating_add(1).saturating_add(c))
                },
                _ => None,
            },
            _ => None,
        },
    }
}

fn deliver(
    map: &GameMap,
    registry: &MasterDataRegistry,
    travel: &TravelTable,
    unit: &UnitSnapshot,
    drop_position: Option<GridPosition>,
    island: &Island,
) -> (r: Option<u32>)
    ensures
        r == delivery_eta(*map, *registry, *travel, unit@, drop_position, island.tiles@),
{
    match drop_position {
        Some(p) => unit_eta_to_drop(map, registry, travel, unit, p),
        None => unit_eta_to_island(map, registry, travel, unit, island),
    }
}

fn find_cargo_wait(
    map: &GameMap,
    travel: &TravelTable,
    units: &Vec<UnitSnapshot>,
    transport: Entity,
    cargo_entities: &Vec<Entity>,
    pickup: GridPosition,
) -> (r: Option<u32>)
    ensures
        r == cargo_wait(
            *map,
            *travel,
            models(units@),
            transport,
            cargo_entities@,
            pickup,
            cargo_entities.len() as int,
        ),
{
    let ghost all = models(units@);
    let ghost cargo = cargo_entities@;
    let mut wait: u32 = 0;
    let mut n: usize = 0;
    while n < cargo_entities.len()
        invariant
            n <= cargo_entities.len(),
            all == models(units@),
            cargo == cargo_entities@,
            Some(wait) == cargo_wait(*map, *travel, all, transport, cargo, pickup, n as int),
        decreases cargo_entities.len() - n,
    {
        let unit = match find_first_unit(units, cargo_entities[n]) {
            Some(u) => u,
            None => {
                proof {
                    lemma_cargo_wait_fails(
                        *map,
                        *travel,
                        all,
                        transport,
                        cargo,
                        pickup,
                        n + 1,
                        cargo.len() as int,
                    );
                }
                return None;
            },
        };
        let aboard: bool = match unit.transporting {
            Some(e) => e == transport,
            None => false,
        };
        let own: Option<u32> = if aboard {
            Some(0)
        } else {
            eta_between(map, travel, unit_traveller(unit), unit.position, pickup)
        };
        match own {
            Some(t) => {
                if t >= wait {
                    wait = t;
                }
            },
            None => {
                proof {
                    lemma_cargo_wait_fails(
                        *map,
                        *travel,
                        all,
                        transport,
                        cargo,
                        pickup,
                        n + 1,
                        cargo.len() as int,
                    );
                }
                return None;
            },
        }
        n += 1;
    }
    Some(wait)
}

/// In how many turns cargo that is being fetched or carried gets to its island.
pub fn operation_transport_eta(
    assignment: &CargoAssignment,
    units: &Vec<UnitSnapshot>,
    map: &GameMap,
    registry: &MasterDataRegistry,
    travel: &TravelTable,
    island: &Island,
) -> (r: Option<u32>)
    ensures
        r == arrival_time(assignment@, models(units@), *map, *registry, *travel, island.tiles@),
{
    match assignment.phase {
        TransportPhase::Return => {
            return None;
        },
        TransportPhase::Drop => {
            return Some(0);
        },
        _ => {},
    }
    let transport = match find_first_unit(units, assignment.transport_entity) {
        Some(t) => t,
        None => {
            return None;
        },
    };
    if assignment.phase == TransportPhase::Transit {
        return deliver(map, registry, travel, transport, assignment.drop_position, island);
    }
    let pickup = match assignment.pickup_position {
        Some(p) => p,
        None => {
            return None;
        },
    };
    let fetch: u32 = match eta_between(
        map,
        travel,
        unit_traveller(transport),
        transport.position,
        pickup,
    ) {
        Some(t) => t,
        None => {
            return None;
        },
    };
    let wait: u32 = match find_cargo_wait(
        map,
        travel,
        units,
        transport.entity,
        &assignment.cargo_entities,
        pickup,
    ) {
        Some(t) => t,
        None => {
            return None;
        },
    };
    let mut there = transport.duplicate();
    there.position = pickup;
    assert(there@ == (UnitModel { position: pickup, ..transport@ }));
    match deliver(map, registry, travel, &there, assignment.drop_position, island) {
        Some(c) => {
            let later: u32 = if fetch >= wait {
                fetch
            } else {
                wait
            };
            Some(later.saturating_add(1).saturating_add(c))
        },
        None => None,
    }
}

proof fn lemma_cargo_wait_fails(
    map: GameMap,
    travel: TravelTable,
    units: Seq<UnitModel>,
    transport: Entity,
    cargo: Seq<Entity>,
    pickup: GridPosition,
    k: int,
    n: int,
)
    requires
        0 < k <= n <= cargo.len(),
        cargo_wait(map, travel, units, transport, cargo, pickup, k) is None,
    ensures
        cargo_wait(map, travel, units, transport, cargo, pickup, n) is None,
    decreases n,
{
    if k < n {
        lemma_cargo_wait_fails(map, travel, units, transport, cargo, pickup, k, n - 1);
    }
}

/// What the cheaper of infantry and mechanised infantry costs; nothing where neither is known.
pub open spec fn capture_unit_cost(registry: MasterDataRegistry) -> u32 {
    let infantry = match registry.unit(UnitType::Infantry) {
        Some(stats) => Some(stats.cost),
        None => None,
    };
    let mech = match registry.unit(UnitType::Mech) {
        Some(stats) => Some(stats.cost),
        None => None,
    };
    match lesser(infantry, mech) {
        Some(cost) => cost,
        None => 0,
    }
}

/// What the transport costs, if it has to be built.
pub open spec fn purchase_cost(transport: Option<TransportOption>) -> u32 {
    match transport {
        Some(option) => if option.source is Producible {
            option.cost
        } else {
            0
        },
        None => 0,
    }
}

/// The cost after the first `n` units that the campaign has for capturing are taken off.
pub open spec fn cost_after_captures(
    start: u32,
    capture_cost: u32,
    captures: Seq<Entity>,
    units: Seq<UnitModel>,
    n: int,
) -> u32
    decreases n,
{
    if n <= 0 {
        start
    } else {
        let rest = cost_after_captures(start, capture_cost, captures, units, n - 1);
        match first_unit(units, captures[n - 1], 0) {
            Some(unit) => rest.saturating_sub(
                if unit.cost <= capture_cost {
                    unit.cost
                } else {
                    capture_cost
                },
            ),
            None => rest,
        }
    }
}

/// What is missing for an expansion: a transport, unless one is held, and two units to capture
/// with. What a campaign that is forming or on its way already has is taken off.
pub open spec fn missing_cost(
    registry: MasterDataRegistry,
    transport: Option<TransportOption>,
    operation: Option<OperationModel>,
    units: Seq<UnitModel>,
) -> u32 {
    let capture_cost = capture_unit_cost(registry);
    let purchase = purchase_cost(transport);
    let whole = purchase.saturating_add(saturating_product(capture_cost, 2));
    match operation {
        Some(o) => if o.is_forming || (o.transport_phase matches Some(p) && is_live(p)) {
            let rest = whole.saturating_sub(
                if o.transport_entities.len() > 0 {
                    purchase
                } else {
                    0
                },
            );
            let n = if o.capture_entities.len() < 2 {
                o.capture_entities.len() as int
            } else {
                2
            };
            cost_after_captures(rest, capture_cost, o.capture_entities, units, n)
        } else {
            whole
        },
        None => whole,
    }
}

/// What is missing for an expansion.
pub fn missing_expansion_package_cost(
    registry: &MasterDataRegistry,
    transport: Option<TransportOption>,
    operation: Option<&ExistingCampaignOperation>,
    units: &Vec<UnitSnapshot>,
) -> (r: u32)
    ensures
        r == missing_cost(
            *registry,
            transport,
            match operation {
                Some(o) => Some(o@),
                None => None,
            },
            models(units@),
        ),
{
    let infantry: Option<u32> = match unit_stats_for_type(registry, UnitType::Infantry) {
        Some(stats) => Some(stats.cost),
        None => None,
    };
    let mech: Option<u32> = match unit_stats_for_type(registry, UnitType::Mech) {
        Some(stats) => Some(stats.cost),
        None => None,
    };
    let capture_cost: u32 = match min_option(infantry, mech) {
        Some(cost) => cost,
        None => 0,
    };
    let purchase: u32 = match transport {
        Some(option) => match option.source {
            TransportSource::Producible(_) => option.cost,
            TransportSource::Held(_) => 0,
        },
        None => 0,
    };
    let whole: u32 = purchase.saturating_add(saturating_mul(capture_cost, 2));
    let o = match operation {
        Some(o) => o,
        None => {
            return whole;
        },
    };
    let under_way: bool = match o.transport_phase {
        Some(p) => is_live_transport_phase(p),
        None => false,
    };
    if !o.is_forming && !under_way {
        return whole;
    }
    let continued: u32 = if o.transport_entities.len() > 0 {
        purchase
    } else {
        0
    };
    let start: u32 = whole.saturating_sub(continued);
    let count: usize = if o.capture_entities.len() < 2 {
        o.capture_entities.len()
    } else {
        2
    };
    let mut rest: u32 = start;
    let mut n: usize = 0;
    while n < count
        invariant
            n <= count,
            count <= o.capture_entities.len(),
            rest == cost_after_captures(
                start,
                capture_cost,
                o.capture_entities@,
                models(units@),
                n as int,
            ),
        decreases count - n,
    {
        if let Some(unit) = find_first_unit(units, o.capture_entities[n]) {
            let cost: u32 = unit.stats.cost;
            rest = rest.saturating_sub(if cost <= capture_cost { cost } else { capture_cost });
        }
        n += 1;
    }
    rest
}

proof fn lemma_helicopters(options: Seq<TransportOption>, n: int)
    requires
        0 <= n <= options.len(),
    ensures
        forall|i: int|
            0 <= i < helicopters(options, n).len() ==> (#[trigger] helicopters(
                options,
                n,
            )[i]).unit_type == UnitType::TransportHelicopter,
        forall|k: int|
            0 <= k < n && (#[trigger] options[k]).unit_type == UnitType::TransportHelicopter
                ==> helicopters(options, n).contains(options[k]),
    decreases n,
{
    if n > 0 {
        lemma_helicopters(options, n - 1);
        let rest = helicopters(options, n - 1);
        let all = helicopters(options, n);
        assert forall|k: int|
            0 <= k < n && (#[trigger] options[k]).unit_type
                == UnitType::TransportHelicopter implies all.contains(options[k]) by {
            if k < n - 1 {
                let j = choose|j: int| 0 <= j < rest.len() && rest[j] == options[k];
                assert(all[j] == options[k]);
            } else {
                assert(all[rest.len() as int] == options[k]);
            }
        }
    }
}

/// Where helicopters are preferred and one can be built, a helicopter is chosen: one on the board
/// if there is any, and of those the cheapest.
pub proof fn law_preferred_helicopter_is_chosen(
    registry: MasterDataRegistry,
    options: Seq<TransportOption>,
)
    requires
        helicopter_producible(options),
    ensures
        chosen_option(registry, options, true) matches Some(c) && c.unit_type
            == UnitType::TransportHelicopter && forall|k: int|
            0 <= k < options.len() && (#[trigger] options[k]).unit_type
                == UnitType::TransportHelicopter && options[k].source is Held ==> c.source is Held
                && c.cost <= options[k].cost,
{
    let n = options.len() as int;
    lemma_helicopters(options, n);
    let list = helicopters(options, n);
    let keys = helicopter_keys(list);
    let w = choose|i: int|
        0 <= i < options.len() && (#[trigger] options[i]).unit_type == UnitType::TransportHelicopter
            && options[i].source is Producible;
    assert(list.contains(options[w]));
    lemma_first_least(keys, list.len() as int);
    let b = first_least(keys, list.len() as int);
    assert forall|k: int|
        0 <= k < options.len() && (#[trigger] options[k]).unit_type
            == UnitType::TransportHelicopter && options[k].source is Held implies list[b].source is Held
        && list[b].cost <= options[k].cost by {
        assert(list.contains(options[k]));
        let j = choose|j: int| 0 <= j < list.len() && list[j] == options[k];
        if j != b {
            assert(stands_before(keys, b, keys_index(j)));
            assert(keys[b].drop_first()[0] == list[b].cost);
            assert(keys[j].drop_first()[0] == list[j].cost);
            reveal_with_fuel(lex_less, 3);
        }
    }
}

/// Where helicopters are not preferred or none can be built, no transport is cheaper than the one
/// that is chosen, and one is chosen wherever there is any.
pub proof fn law_fallback_is_cheapest(
    registry: MasterDataRegistry,
    options: Seq<TransportOption>,
    prefer_helicopter: bool,
)
    requires
        !prefer_helicopter || !helicopter_producible(options),
    ensures
        chosen_option(registry, options, prefer_helicopter) is Some <==> options.len() > 0,
        chosen_option(registry, options, prefer_helicopter) matches Some(c) ==> options.contains(c)
            && forall|k: int| 0 <= k < options.len() ==> c.cost <= (#[trigger] options[k]).cost,
{
    if options.len() > 0 {
        let keys = fallback_keys(registry, options);
        lemma_first_least(keys, options.len() as int);
        let b = first_least(keys, options.len() as int);
        assert forall|k: int| 0 <= k < options.len() implies options[b].cost <= (
        #[trigger] options[k]).cost by {
            if k != b {
                assert(stands_before(keys, b, keys_index(k)));
            }
        }
    }
}

/// A transport waits for the last of its cargo: nobody takes longer than the wait, somebody takes
/// that long unless there is nobody, and there is no wait exactly if somebody never gets there.
pub proof fn law_cargo_wait_is_greatest(
    map: GameMap,
    travel: TravelTable,
    units: Seq<UnitModel>,
    transport: Entity,
    cargo: Seq<Entity>,
    pickup: GridPosition,
    n: int,
)
    requires
        0 <= n <= cargo.len(),
    ensures
        match cargo_wait(map, travel, units, transport, cargo, pickup, n) {
            Some(wait) => {
                &&& forall|i: int|
                    0 <= i < n ==> (member_wait(
                        map,
                        travel,
                        units,
                        transport,
                        #[trigger] cargo[i],
                        pickup,
                    ) matches Some(own) && own <= wait)
                &&& if n == 0 {
                    wait == 0
                } else {
                    exists|i: int|
                        0 <= i < n && member_wait(
                            map,
                            travel,
                            units,
                            transport,
                            #[trigger] cargo[i],
                            pickup,
                        ) == Some(wait)
                }
            },
            None => exists|i: int|
                0 <= i < n && member_wait(
                    map,
                    travel,
                    units,
                    transport,
                    #[trigger] cargo[i],
                    pickup,
                ) is None,
        },
    decreases n,
{
    if n > 0 {
        law_cargo_wait_is_greatest(map, travel, units, transport, cargo, pickup, n - 1);
        let last = member_wait(map, travel, units, transport, cargo[n - 1], pickup);
        match cargo_wait(map, travel, units, transport, cargo, pickup, n - 1) {
            Some(wait) => {
                if last is None {
                    assert(member_wait(map, travel, units, transport, cargo[n - 1], pickup) is None);
                } else if n > 1 {
                    let i = choose|i: int|
                        0 <= i < n - 1 && member_wait(
                            map,
                            travel,
                            units,
                            transport,
                            #[trigger] cargo[i],
                            pickup,
                        ) == Some(wait);
                    assert(0 <= i < n && member_wait(
                        map,
                        travel,
                        units,
                        transport,
                        cargo[i],
                        pickup,
                    ) == Some(wait));
                }
            },
            None => {
                let i = choose|i: int|
                    0 <= i < n - 1 && member_wait(
                        map,
                        travel,
                        units,
                        transport,
                        #[trigger] cargo[i],
                        pickup,
                    ) is None;
                assert(0 <= i < n && member_wait(
                    map,
                    travel,
                    units,
                    transport,
                    cargo[i],
                    pickup,
                ) is None);
            },
        }
    }
}

} // verus!
