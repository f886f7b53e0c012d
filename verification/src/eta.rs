//! When a unit gets somewhere, and when it has captured something there.
use crate::arith::{saturating_mul, saturating_product};
use crate::board::Property;
use crate::grid::{
    contains_position, in_reading_order, law_sorted_positions, sort_positions, sorted_positions, GameMap,
    GridPosition,
};
use crate::islands::Island;
use crate::master_data::MasterDataRegistry;
use crate::missions::{can_enter, enterable, enters, lies_beside};
use crate::snapshots::{PropertySnapshot, UnitModel, UnitSnapshot};
use crate::travel::{TravelTable, Traveller};
use crate::units::{Health, MovementType, UnitStats, UnitType};
use vstd::prelude::*;

verus! {

/// The lesser of two numbers, either of which may be missing.
pub open spec fn lesser(current: Option<u32>, candidate: Option<u32>) -> Option<u32> {
    match (current, candidate) {
        (Some(a), Some(b)) => if a <= b {
            Some(a)
        } else {
            Some(b)
        },
        (None, Some(b)) => Some(b),
        (current, None) => current,
    }
}

/// The lesser of two numbers, either of which may be missing.
pub fn min_option(current: Option<u32>, candidate: Option<u32>) -> (r: Option<u32>)
    ensures
        r == lesser(current, candidate),
{
    match current {
        Some(a) => match candidate {
            Some(b) => if a <= b {
                Some(a)
            } else {
                Some(b)
            },
            None => Some(a),
        },
        None => candidate,
    }
}

/// The quotient rounded up; the greatest number where the divisor is zero.
pub open spec fn quotient_up(numerator: u32, denominator: u32) -> int {
    if denominator == 0 {
        u32::MAX as int
    } else {
        (numerator + denominator - 1) / (denominator as int)
    }
}

/// The quotient rounded up; the greatest number where the divisor is zero.
pub fn ceil_div(numerator: u32, denominator: u32) -> (r: u32)
    ensures
        r == quotient_up(numerator, denominator),
{
    if denominator == 0 {
        return u32::MAX;
    }
    proof {
        lemma_quotient_up(numerator as int, denominator as int);
    }
    let whole: u32 = numerator / denominator;
    if numerator % denominator == 0 {
        whole
    } else {
        whole + 1
    }
}

proof fn lemma_quotient_up(a: int, b: int)
    requires
        0 <= a <= u32::MAX,
        0 < b,
    ensures
        (a + b - 1) / b == a / b + (if a % b == 0 {
            0int
        } else {
            1int
        }),
        a % b != 0 ==> a / b < u32::MAX,
{
    let q = a / b;
    let m = a % b;
    assert(a == b * q + m && 0 <= m < b) by (nonlinear_arith)
        requires
            0 < b,
            q == a / b,
            m == a % b,
    ;
    if m == 0 {
        assert((a + b - 1) / b == q) by (nonlinear_arith)
            requires
                a == b * q,
                0 < b,
        ;
    } else {
        assert((a + b - 1) / b == q + 1) by (nonlinear_arith)
            requires
                a == b * q + m,
                0 < m < b,
        ;
        assert(q < a) by (nonlinear_arith)
            requires
                a == b * q + m,
                0 < m < b,
                0 <= a,
        ;
    }
}

/// The smallest number of portions that covers the whole.
pub proof fn law_quotient_up_is_least_cover(numerator: u32, denominator: u32)
    requires
        denominator > 0,
    ensures
        quotient_up(numerator, denominator) * denominator >= numerator,
        quotient_up(numerator, denominator) > 0 ==> (quotient_up(numerator, denominator) - 1)
            * denominator < numerator,
{
    let (a, b) = (numerator as int, denominator as int);
    let q = (a + b - 1) / b;
    assert(q * b >= a && (q > 0 ==> (q - 1) * b < a)) by (nonlinear_arith)
        requires
            0 < b,
            0 <= a,
            q == (a + b - 1) / b,
    ;
}

/// The stats of a type, if the master data have it.
pub fn unit_stats_for_type(registry: &MasterDataRegistry, unit_type: UnitType) -> (r: Option<
    &UnitStats,
>)
    ensures
        match r {
            Some(stats) => registry.unit(unit_type) == Some(*stats),
            None => registry.unit(unit_type) is None,
        },
{
    registry.unit_stats(unit_type)
}

/// Transports and supply trucks only support others.
pub open spec fn supports_only(unit_type: UnitType) -> bool {
    unit_type == UnitType::TransportHelicopter || unit_type == UnitType::Lander || unit_type
        == UnitType::SupplyTruck
}

/// Whether units of the type only support others.
pub fn is_support_only(unit_type: UnitType) -> (r: bool)
    ensures
        r == supports_only(unit_type),
{
    match unit_type {
        UnitType::TransportHelicopter | UnitType::Lander | UnitType::SupplyTruck => true,
        _ => false,
    }
}

/// What a unit is worth in a fight: its cost in proportion to its health.
pub open spec fn combat_worth(unit_type: UnitType, cost: u32, health: Health) -> int {
    if health.max == 0 || supports_only(unit_type) {
        0
    } else {
        let value = (cost * health.current) / (health.max as int);
        if value > u32::MAX {
            u32::MAX as int
        } else {
            value
        }
    }
}

/// What a unit is worth in a fight: its cost in proportion to its health.
pub fn hp_weighted_combat_value(stats: &UnitStats, health: Health) -> (r: u32)
    ensures
        r == combat_worth(stats.unit_type, stats.cost, health),
{
    if health.max == 0 || is_support_only(stats.unit_type) {
        return 0;
    }
    let ghost (c, h) = (stats.cost as int, health.current as int);
    assert(0 <= c * h <= 0xffff_ffff * 0xffff_ffff) by (nonlinear_arith)
        requires
            0 <= c <= 0xffff_ffff,
            0 <= h <= 0xffff_ffff,
    ;
    let value: u64 = (stats.cost as u64 * health.current as u64) / (health.max as u64);
    if value > 0xffff_ffff {
        0xffff_ffff
    } else {
        value as u32
    }
}

/// A unit in full health is worth its cost, and never more than that within its health limit.
pub proof fn law_combat_worth_is_bounded_by_cost(unit_type: UnitType, cost: u32, health: Health)
    requires
        health.current <= health.max,
    ensures
        0 <= combat_worth(unit_type, cost, health) <= cost,
        health.current == health.max && health.max > 0 && !supports_only(unit_type)
            ==> combat_worth(unit_type, cost, health) == cost,
{
    if health.max > 0 {
        let (c, h, m) = (cost as int, health.current as int, health.max as int);
        assert(0 <= (c * h) / m <= c && (h == m ==> (c * h) / m == c)) by (nonlinear_arith)
            requires
                0 <= c,
                0 <= h <= m,
                0 < m,
        ;
    }
}

/// How many turns a unit takes to capture a building: each turn takes ten points off for each
/// started ten of its health.
pub open spec fn turns_to_capture(property: Property, health: Health) -> int {
    quotient_up(
        property.capture_points,
        saturating_product(health.current.saturating_add(9) / 10, 10),
    )
}

/// How many turns a unit takes to capture a building.
pub fn capture_turns(property: &Property, health: Health) -> (r: u32)
    ensures
        r == turns_to_capture(*property, health),
{
    let display: u32 = health.current.saturating_add(9) / 10;
    ceil_div(property.capture_points, saturating_mul(display, 10))
}

/// How many turns a unit in full health takes to capture a building.
pub fn default_capture_turns(property: &Property) -> (r: u32)
    ensures
        r == quotient_up(property.capture_points, 100),
{
    ceil_div(property.capture_points, 100)
}

/// The tiles of an island in reading order.
pub fn sorted_island_tiles(island: &Island) -> (r: Vec<GridPosition>)
    ensures
        r@ == sorted_positions(island.tiles@),
{
    sort_positions(&island.tiles)
}

/// The tiles that serve an island among its first `n`: those that can be entered, and for a ship
/// also those beside them.
pub open spec fn serving_tiles(
    map: GameMap,
    registry: MasterDataRegistry,
    movement_type: MovementType,
    tiles: Seq<GridPosition>,
    n: int,
) -> Seq<GridPosition>
    decreases n,
{
    if n <= 0 {
        Seq::empty()
    } else {
        let tile = tiles[n - 1];
        let rest = serving_tiles(map, registry, movement_type, tiles, n - 1);
        let own = if can_enter(map, registry, movement_type, tile) {
            rest.push(tile)
        } else {
            rest
        };
        if movement_type == MovementType::Ship {
            let near = map.adjacent(tile);
            own + enterable(map, registry, movement_type, near, near.len() as int)
        } else {
            own
        }
    }
}

/// The tiles from which a way of moving serves an island, in reading order.
pub open spec fn island_access(
    map: GameMap,
    registry: MasterDataRegistry,
    tiles: Seq<GridPosition>,
    movement_type: MovementType,
) -> Seq<GridPosition> {
    let sorted = sorted_positions(tiles);
    sorted_positions(
        serving_tiles(map, registry, movement_type, sorted, sorted.len() as int),
    )
}

fn add_serving_tile(
    map: &GameMap,
    registry: &MasterDataRegistry,
    movement_type: MovementType,
    tile: GridPosition,
    list: &mut Vec<GridPosition>,
)
    ensures
        final(list)@ == ({
            let own = if can_enter(*map, *registry, movement_type, tile) {
                old(list)@.push(tile)
            } else {
                old(list)@
            };
            if movement_type == MovementType::Ship {
                let near = map.adjacent(tile);
                own + enterable(*map, *registry, movement_type, near, near.len() as int)
            } else {
                own
            }
        }),
{
    if enters(map, registry, movement_type, tile) {
        list.push(tile);
    }
    if movement_type == MovementType::Ship {
        assert(tile == (GridPosition { x: tile.x, y: tile.y }));
        let near = map.get_adjacent(tile.x, tile.y);
        let ghost before = list@;
        let mut k: usize = 0;
        while k < near.len()
            invariant
                k <= near.len(),
                list@ == before + enterable(*map, *registry, movement_type, near@, k as int),
            decreases near.len() - k,
        {
            if enters(map, registry, movement_type, near[k]) {
                list.push(near[k]);
            }
            k += 1;
        }
    }
}

/// The tiles from which a way of moving serves an island, in reading order.
pub fn movement_targets_for_island(
    map: &GameMap,
    registry: &MasterDataRegistry,
    island: &Island,
    movement_type: MovementType,
) -> (r: Vec<GridPosition>)
    ensures
        r@ == island_access(*map, *registry, island.tiles@, movement_type),
{
    let tiles = sorted_island_tiles(island);
    let mut list: Vec<GridPosition> = Vec::new();
    let mut n: usize = 0;
    while n < tiles.len()
        invariant
            n <= tiles.len(),
            list@ == serving_tiles(*map, *registry, movement_type, tiles@, n as int),
        decreases tiles.len() - n,
    {
        add_serving_tile(map, registry, movement_type, tiles[n], &mut list);
        n += 1;
    }
    sort_positions(&list)
}

/// In how many turns a unit gets from one tile to another: never from off the map, nor where the
/// terrain does not join the tiles, nor where the journey cannot be made.
pub open spec fn eta(
    map: GameMap,
    travel: TravelTable,
    traveller: Traveller,
    start: GridPosition,
    target: GridPosition,
) -> Option<u32> {
    let distance = travel.turn_distance(traveller, start, target);
    if !map.contains(start) || !travel.linked(traveller.movement_type, start, target)
        || distance.used_mp == u32::MAX {
        None
    } else {
        Some(distance.turns)
    }
}

/// In how many turns a unit gets from one tile to another.
pub fn eta_between(
    map: &GameMap,
    travel: &TravelTable,
    traveller: Traveller,
    start: GridPosition,
    target: GridPosition,
) -> (r: Option<u32>)
    ensures
        r == eta(*map, *travel, traveller, start, target),
{
    if start.x >= map.width || start.y >= map.height {
        return None;
    }
    if !travel.is_terrain_reachable(traveller.movement_type, start, target) {
        return None;
    }
    let distance = travel.calculate_turn_distance(traveller, start, target);
    if distance.used_mp != u32::MAX {
        Some(distance.turns)
    } else {
        None
    }
}

/// The least time in which a unit gets to one of the first `n` targets.
pub open spec fn least_eta(
    map: GameMap,
    travel: TravelTable,
    traveller: Traveller,
    start: GridPosition,
    targets: Seq<GridPosition>,
    n: int,
) -> Option<u32>
    decreases n,
{
    if n <= 0 {
        None
    } else {
        lesser(
            least_eta(map, travel, traveller, start, targets, n - 1),
            eta(map, travel, traveller, start, targets[n - 1]),
        )
    }
}

fn find_least_eta(
    map: &GameMap,
    travel: &TravelTable,
    traveller: Traveller,
    start: GridPosition,
    targets: &Vec<GridPosition>,
) -> (r: Option<u32>)
    ensures
        r == least_eta(*map, *travel, traveller, start, targets@, targets.len() as int),
{
    let mut best: Option<u32> = None;
    let mut n: usize = 0;
    while n < targets.len()
        invariant
            n <= targets.len(),
            best == least_eta(*map, *travel, traveller, start, targets@, n as int),
        decreases targets.len() - n,
    {
        best = min_option(best, eta_between(map, travel, traveller, start, targets[n]));
        n += 1;
    }
    best
}

/// How a unit travels.
pub open spec fn traveller_of(unit: UnitModel) -> Traveller {
    Traveller {
        player_id: unit.faction,
        movement_type: unit.movement_type,
        max_movement: unit.max_movement,
    }
}

/// How a unit travels.
pub fn unit_traveller(unit: &UnitSnapshot) -> (r: Traveller)
    ensures
        r == traveller_of(unit@),
{
    Traveller {
        player_id: unit.faction,
        movement_type: unit.stats.movement_type,
        max_movement: unit.stats.max_movement,
    }
}

/// In how many turns a unit gets to an island: none if it is there, else the least time to a tile
/// that serves it.
pub open spec fn island_eta(
    map: GameMap,
    registry: MasterDataRegistry,
    travel: TravelTable,
    unit: UnitModel,
    tiles: Seq<GridPosition>,
) -> Option<u32> {
    if tiles.contains(unit.position) {
        Some(0)
    } else {
        let targets = island_access(map, registry, tiles, unit.movement_type);
        least_eta(
            map,
            travel,
            traveller_of(unit),
            unit.position,
            targets,
            targets.len() as int,
        )
    }
}

/// In how many turns a unit gets to an island.
pub fn unit_eta_to_island(
    map: &GameMap,
    registry: &MasterDataRegistry,
    travel: &TravelTable,
    unit: &UnitSnapshot,
    island: &Island,
) -> (r: Option<u32>)
    ensures
        r == island_eta(*map, *registry, *travel, unit@, island.tiles@),
{
    if contains_position(&island.tiles, unit.position) {
        return Some(0);
    }
    let targets = movement_targets_for_island(map, registry, island, unit.stats.movement_type);
    find_least_eta(map, travel, unit_traveller(unit), unit.position, &targets)
}

/// The tiles from which a way of moving serves a landing tile, in reading order.
pub open spec fn drop_access(
    map: GameMap,
    registry: MasterDataRegistry,
    drop_position: GridPosition,
    movement_type: MovementType,
) -> Seq<GridPosition> {
    sorted_positions(serving_tiles(map, registry, movement_type, seq![drop_position], 1))
}

/// In how many turns a unit gets to where it can serve the landing tile.
pub open spec fn drop_eta(
    map: GameMap,
    registry: MasterDataRegistry,
    travel: TravelTable,
    unit: UnitModel,
    drop_position: GridPosition,
) -> Option<u32> {
    let targets = drop_access(map, registry, drop_position, unit.movement_type);
    least_eta(
        map,
        travel,
        traveller_of(unit),
        unit.position,
        targets,
        targets.len() as int,
    )
}

/// In how many turns a unit gets to where it can serve the landing tile.
pub fn unit_eta_to_drop(
    map: &GameMap,
    registry: &MasterDataRegistry,
    travel: &TravelTable,
    unit: &UnitSnapshot,
    drop_position: GridPosition,
) -> (r: Option<u32>)
    ensures
        r == drop_eta(*map, *registry, *travel, unit@, drop_position),
{
    let mut list: Vec<GridPosition> = Vec::new();
    let movement_type = unit.stats.movement_type;
    add_serving_tile(map, registry, movement_type, drop_position, &mut list);
    proof {
        let one = seq![drop_position];
        assert(one[0] == drop_position);
        assert(serving_tiles(*map, *registry, movement_type, one, 0) =~= Seq::empty());
        assert(list@ =~= serving_tiles(*map, *registry, movement_type, one, 1));
    }
    let targets = sort_positions(&list);
    find_least_eta(map, travel, unit_traveller(unit), unit.position, &targets)
}

/// The time from `start` to the capture of a building: the way and the capture.
pub open spec fn time_to_take(
    map: GameMap,
    travel: TravelTable,
    unit: UnitModel,
    start: GridPosition,
    site: PropertySnapshot,
) -> Option<u32> {
    if site.property.owner_id == Some(unit.faction) {
        None
    } else {
        match eta(map, travel, traveller_of(unit), start, site.position) {
            Some(turns) => Some(
                turns.saturating_add(turns_to_capture(site.property, unit.health) as u32),
            ),
            None => None,
        }
    }
}

/// The least time from `start` to the capture of one of the first `n` buildings that the unit's
/// owner does not hold.
pub open spec fn least_time_to_take(
    map: GameMap,
    travel: TravelTable,
    unit: UnitModel,
    start: GridPosition,
    sites: Seq<PropertySnapshot>,
    n: int,
) -> Option<u32>
    decreases n,
{
    if n <= 0 {
        None
    } else {
        lesser(
            least_time_to_take(map, travel, unit, start, sites, n - 1),
            time_to_take(map, travel, unit, start, sites[n - 1]),
        )
    }
}

/// The least time from `start` to a capture; none for a unit that cannot capture.
pub open spec fn capture_time(
    map: GameMap,
    travel: TravelTable,
    unit: UnitModel,
    start: GridPosition,
    sites: Seq<PropertySnapshot>,
) -> Option<u32> {
    if unit.can_capture {
        least_time_to_take(map, travel, unit, start, sites, sites.len() as int)
    } else {
        None
    }
}

/// The least time from `start` to a capture.
pub fn capture_eta_from_position(
    map: &GameMap,
    travel: &TravelTable,
    unit: &UnitSnapshot,
    start: GridPosition,
    properties: &Vec<PropertySnapshot>,
) -> (r: Option<u32>)
    ensures
        r == capture_time(*map, *travel, unit@, start, properties@),
{
    if !unit.stats.can_capture {
        return None;
    }
    let traveller = unit_traveller(unit);
    let mut best: Option<u32> = None;
    let mut n: usize = 0;
    while n < properties.len()
        invariant
            n <= properties.len(),
            traveller == traveller_of(unit@),
            best == least_time_to_take(*map, *travel, unit@, start, properties@, n as int),
        decreases properties.len() - n,
    {
        let site = properties[n];
        let own: bool = match site.property.owner_id {
            Some(owner) => owner == unit.faction,
            None => false,
        };
        if !own {
            if let Some(turns) = eta_between(map, travel, traveller, start, site.position) {
                let time: u32 = turns.saturating_add(capture_turns(&site.property, unit.health));
                best = min_option(best, Some(time));
            }
        }
        n += 1;
    }
    best
}

/// The greatest of the capture times from those of the first `n` landing tiles that the unit can
/// enter. There is none where no tile can be entered or where no capture can follow one of them.
pub open spec fn worst_time(
    map: GameMap,
    registry: MasterDataRegistry,
    travel: TravelTable,
    unit: UnitModel,
    landings: Seq<GridPosition>,
    sites: Seq<PropertySnapshot>,
    n: int,
) -> (bool, Option<u32>)
    decreases n,
{
    if n <= 0 {
        (true, None)
    } else {
        let (sure, worst) = worst_time(map, registry, travel, unit, landings, sites, n - 1);
        if !sure || !can_enter(map, registry, unit.movement_type, landings[n - 1]) {
            (sure, worst)
        } else {
            match capture_time(map, travel, unit, landings[n - 1], sites) {
                Some(time) => (
                    true,
                    Some(
                        match worst {
                            Some(w) => if w >= time {
                                w
                            } else {
                                time
                            },
                            None => time,
                        },
                    ),
                ),
                None => (false, None),
            }
        }
    }
}

/// The capture time that holds wherever on the island the unit is landed.
pub open spec fn cautious_capture_time(
    map: GameMap,
    registry: MasterDataRegistry,
    travel: TravelTable,
    unit: UnitModel,
    tiles: Seq<GridPosition>,
    sites: Seq<PropertySnapshot>,
) -> Option<u32> {
    let landings = sorted_positions(tiles);
    worst_time(map, registry, travel, unit, landings, sites, landings.len() as int).1
}

/// The capture time that holds wherever on the island the unit is landed: as long as the landing
/// tile is open, the slowest one counts.
pub fn conservative_capture_eta_from_island(
    map: &GameMap,
    registry: &MasterDataRegistry,
    travel: &TravelTable,
    unit: &UnitSnapshot,
    island: &Island,
    properties: &Vec<PropertySnapshot>,
) -> (r: Option<u32>)
    ensures
        r == cautious_capture_time(
            *map,
            *registry,
            *travel,
            unit@,
            island.tiles@,
            properties@,
        ),
{
    let landings = sorted_island_tiles(island);
    let mut worst: Option<u32> = None;
    let mut n: usize = 0;
    while n < landings.len()
        invariant
            n <= landings.len(),
            landings@ == sorted_positions(island.tiles@),
            (true, worst) == worst_time(
                *map,
                *registry,
                *travel,
                unit@,
                landings@,
                properties@,
                n as int,
            ),
        decreases landings.len() - n,
    {
        if enters(map, registry, unit.stats.movement_type, landings[n]) {
            match capture_eta_from_position(map, travel, unit, landings[n], properties) {
                Some(time) => {
                    let next: u32 = match worst {
                        Some(w) => if w >= time {
                            w
                        } else {
                            time
                        },
                        None => time,
                    };
                    worst = Some(next);
                },
                None => {
                    proof {
                        lemma_worst_time_stays_unsure(
                            *map,
                            *registry,
                            *travel,
                            unit@,
                            landings@,
                            properties@,
                            n + 1,
                            landings.len() as int,
                        );
                    }
                    return None;
                },
            }
        }
        n += 1;
    }
    worst
}

proof fn lemma_worst_time_stays_unsure(
    map: GameMap,
    registry: MasterDataRegistry,
    travel: TravelTable,
    unit: UnitModel,
    landings: Seq<GridPosition>,
    sites: Seq<PropertySnapshot>,
    k: int,
    n: int,
)
    requires
        0 <= k <= n <= landings.len(),
        worst_time(map, registry, travel, unit, landings, sites, k) == (false, None::<u32>),
    ensures
        worst_time(map, registry, travel, unit, landings, sites, n) == (false, None::<u32>),
    decreases n,
{
    if k < n {
        lemma_worst_time_stays_unsure(
            map,
            registry,
            travel,
            unit,
            landings,
            sites,
            k,
            n - 1,
        );
    }
}

/// The cautious capture time is never too early: from every landing tile that the unit can enter
/// it captures something by then.
pub proof fn law_cautious_time_covers_every_landing(
    map: GameMap,
    registry: MasterDataRegistry,
    travel: TravelTable,
    unit: UnitModel,
    landings: Seq<GridPosition>,
    sites: Seq<PropertySnapshot>,
    n: int,
    k: int,
)
    requires
        0 <= k < n <= landings.len(),
        worst_time(map, registry, travel, unit, landings, sites, n).0,
        can_enter(map, registry, unit.movement_type, landings[k]),
    ensures
        worst_time(map, registry, travel, unit, landings, sites, n).1 matches Some(worst)
            && capture_time(map, travel, unit, landings[k], sites) matches Some(time) && time
            <= worst,
    decreases n,
{
    if k < n - 1 {
        law_cautious_time_covers_every_landing(
            map,
            registry,
            travel,
            unit,
            landings,
            sites,
            n - 1,
            k,
        );
    }
}

proof fn lemma_enterable_as_set(
    map: GameMap,
    registry: MasterDataRegistry,
    movement_type: MovementType,
    near: Seq<GridPosition>,
    n: int,
    p: GridPosition,
)
    requires
        0 <= n <= near.len(),
    ensures
        enterable(map, registry, movement_type, near, n).contains(p) <==> near.take(n).contains(p)
            && can_enter(map, registry, movement_type, p),
    decreases n,
{
    if n > 0 {
        lemma_enterable_as_set(map, registry, movement_type, near, n - 1, p);
        lemma_last_or_before(near.take(n - 1), near[n - 1], p);
        assert(near.take(n) =~= near.take(n - 1).push(near[n - 1]));
        lemma_last_or_before(
            enterable(map, registry, movement_type, near, n - 1),
            near[n - 1],
            p,
        );
    }
}

proof fn lemma_last_or_before(s: Seq<GridPosition>, last: GridPosition, p: GridPosition)
    ensures
        s.push(last).contains(p) <==> s.contains(p) || p == last,
{
    let t = s.push(last);
    assert(t[s.len() as int] == last);
    if s.contains(p) {
        let i = choose|i: int| 0 <= i < s.len() && s[i] == p;
        assert(t[i] == p);
    }
    if t.contains(p) {
        let i = choose|i: int| 0 <= i < t.len() && t[i] == p;
        if i < s.len() {
            assert(s[i] == p);
        }
    }
}

proof fn lemma_either_list(a: Seq<GridPosition>, b: Seq<GridPosition>, p: GridPosition)
    ensures
        (a + b).contains(p) <==> a.contains(p) || b.contains(p),
{
    let t = a + b;
    if a.contains(p) {
        let i = choose|i: int| 0 <= i < a.len() && a[i] == p;
        assert(t[i] == p);
    }
    if b.contains(p) {
        let i = choose|i: int| 0 <= i < b.len() && b[i] == p;
        assert(t[a.len() + i] == p);
    }
    if t.contains(p) {
        let i = choose|i: int| 0 <= i < t.len() && t[i] == p;
        if i < a.len() {
            assert(a[i] == p);
        } else {
            assert(b[i - a.len()] == p);
        }
    }
}

/// The position serves one of the tiles: it is the tile, or, for a ship, lies beside it.
pub open spec fn is_at_hand(
    map: GameMap,
    movement_type: MovementType,
    tiles: Seq<GridPosition>,
    p: GridPosition,
) -> bool {
    tiles.contains(p) || (movement_type == MovementType::Ship && lies_beside(map, tiles, p))
}

proof fn lemma_serving_as_set(
    map: GameMap,
    registry: MasterDataRegistry,
    movement_type: MovementType,
    tiles: Seq<GridPosition>,
    n: int,
    p: GridPosition,
)
    requires
        0 <= n <= tiles.len(),
    ensures
        serving_tiles(map, registry, movement_type, tiles, n).contains(p) <==> can_enter(
            map,
            registry,
            movement_type,
            p,
        ) && is_at_hand(map, movement_type, tiles.take(n), p),
    decreases n,
{
    let some = tiles.take(n);
    if n > 0 {
        lemma_serving_as_set(map, registry, movement_type, tiles, n - 1, p);
        let fewer = tiles.take(n - 1);
        let tile = tiles[n - 1];
        let rest = serving_tiles(map, registry, movement_type, tiles, n - 1);
        let own = if can_enter(map, registry, movement_type, tile) {
            rest.push(tile)
        } else {
            rest
        };
        let near = map.adjacent(tile);
        assert(some =~= fewer.push(tile));
        lemma_last_or_before(fewer, tile, p);
        lemma_last_or_before(rest, tile, p);
        lemma_enterable_as_set(map, registry, movement_type, near, near.len() as int, p);
        assert(near.take(near.len() as int) =~= near);
        lemma_either_list(
            own,
            enterable(map, registry, movement_type, near, near.len() as int),
            p,
        );
        assert(lies_beside(map, some, p) <==> lies_beside(map, fewer, p) || near.contains(p)) by {
            if lies_beside(map, some, p) {
                let k = choose|k: int|
                    0 <= k < some.len() && map.adjacent(#[trigger] some[k]).contains(p);
                if k < n - 1 {
                    assert(fewer[k] == some[k]);
                }
            }
            if lies_beside(map, fewer, p) {
                let k = choose|k: int|
                    0 <= k < fewer.len() && map.adjacent(#[trigger] fewer[k]).contains(p);
                assert(some[k] == fewer[k]);
            }
            if near.contains(p) {
                assert(map.adjacent(some[n - 1]).contains(p));
            }
        }
    } else {
        assert(some =~= Seq::<GridPosition>::empty());
        assert(serving_tiles(map, registry, movement_type, tiles, n) =~= Seq::<GridPosition>::empty());
    }
}

/// The tiles from which a way of moving serves an island are those of its tiles that it can enter
/// and, for a ship, those beside them that it can enter; they stand in reading order, each once.
pub proof fn law_island_access_as_set(
    map: GameMap,
    registry: MasterDataRegistry,
    tiles: Seq<GridPosition>,
    movement_type: MovementType,
)
    ensures
        in_reading_order(island_access(map, registry, tiles, movement_type)),
        forall|p: GridPosition| #[trigger]
            island_access(map, registry, tiles, movement_type).contains(p) <==> can_enter(
                map,
                registry,
                movement_type,
                p,
            ) && is_at_hand(map, movement_type, tiles, p),
{
    let sorted = sorted_positions(tiles);
    let n = sorted.len() as int;
    let list = serving_tiles(map, registry, movement_type, sorted, n);
    law_sorted_positions(tiles);
    law_sorted_positions(list);
    assert(sorted.take(n) =~= sorted);
    assert forall|p: GridPosition| #[trigger]
        island_access(map, registry, tiles, movement_type).contains(p) <==> can_enter(
            map,
            registry,
            movement_type,
            p,
        ) && is_at_hand(map, movement_type, tiles, p) by {
        lemma_serving_as_set(map, registry, movement_type, sorted, n, p);
        assert(lies_beside(map, sorted, p) <==> lies_beside(map, tiles, p)) by {
            if lies_beside(map, sorted, p) {
                let k = choose|k: int|
                    0 <= k < sorted.len() && map.adjacent(#[trigger] sorted[k]).contains(p);
                assert(sorted.contains(sorted[k]));
                let j = choose|j: int| 0 <= j < tiles.len() && tiles[j] == sorted[k];
                assert(map.adjacent(tiles[j]).contains(p));
            }
            if lies_beside(map, tiles, p) {
                let k = choose|k: int|
                    0 <= k < tiles.len() && map.adjacent(#[trigger] tiles[k]).contains(p);
                assert(tiles.contains(tiles[k]));
                assert(sorted.contains(tiles[k]));
                let j = choose|j: int| 0 <= j < sorted.len() && sorted[j] == tiles[k];
                assert(map.adjacent(sorted[j]).contains(p));
            }
        }
    }
}

} // verus!
