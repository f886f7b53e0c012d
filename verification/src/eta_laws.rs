//! What holds of travel and capture times.
use crate::arith::saturating_product;
use crate::board::Property;
use crate::eta::{
    capture_time, cautious_capture_time, combat_worth, drop_access, drop_eta, eta, is_at_hand,
    island_access, island_eta, law_island_access_as_set, law_quotient_up_is_least_cover, least_eta,
    least_time_to_take, quotient_up, time_to_take, traveller_of, turns_to_capture, worst_time,
};
use crate::grid::{law_sorted_positions, sorted_positions, GameMap, GridPosition};
use crate::master_data::MasterDataRegistry;
use crate::missions::{can_enter, lies_beside};
use crate::snapshots::{PropertySnapshot, UnitModel};
use crate::travel::{TerrainLink, TravelTable, Traveller};
use crate::units::{Health, MovementType, UnitType};
use vstd::prelude::*;

verus! {

/// A unit gets from a tile of the map to another exactly if the terrain joins the two and the
/// journey can be made, and it takes the turns of the journey.
pub proof fn law_way_takes_its_turns(
    map: GameMap,
    travel: TravelTable,
    traveller: Traveller,
    start: GridPosition,
    target: GridPosition,
)
    ensures
        ({
            let r = eta(map, travel, traveller, start, target);
            let d = travel.turn_distance(traveller, start, target);
            let link = TerrainLink { movement_type: traveller.movement_type, start, target };
            &&& r is Some <==> start.x < map.width && start.y < map.height && travel.links@.contains(
                link,
            ) && d.used_mp < u32::MAX
            &&& r is Some ==> r->0 == d.turns
        }),
{
}

/// The time is the least of those to the tiles that are meant; there is none exactly if none of
/// them can be reached.
pub open spec fn is_least_time(
    map: GameMap,
    travel: TravelTable,
    traveller: Traveller,
    start: GridPosition,
    meant: spec_fn(GridPosition) -> bool,
    r: Option<u32>,
) -> bool {
    match r {
        Some(t) => (exists|p: GridPosition| #[trigger]
            meant(p) && eta(map, travel, traveller, start, p) == Some(t)) && forall|p: GridPosition|
            #[trigger] meant(p) && eta(map, travel, traveller, start, p) is Some ==> t <= eta(
                map,
                travel,
                traveller,
                start,
                p,
            )->0,
        None => forall|p: GridPosition| #[trigger]
            meant(p) ==> eta(map, travel, traveller, start, p) is None,
    }
}

proof fn lemma_least_eta(
    map: GameMap,
    travel: TravelTable,
    traveller: Traveller,
    start: GridPosition,
    targets: Seq<GridPosition>,
    n: int,
)
    requires
        0 <= n <= targets.len(),
    ensures
        match least_eta(map, travel, traveller, start, targets, n) {
            Some(t) => (exists|i: int|
                0 <= i < n && eta(map, travel, traveller, start, #[trigger] targets[i]) == Some(t))
                && forall|i: int|
                0 <= i < n && eta(map, travel, traveller, start, #[trigger] targets[i]) is Some
                    ==> t <= eta(map, travel, traveller, start, targets[i])->0,
            None => forall|i: int|
                0 <= i < n ==> eta(map, travel, traveller, start, #[trigger] targets[i]) is None,
        },
    decreases n,
{
    if n > 0 {
        lemma_least_eta(map, travel, traveller, start, targets, n - 1);
        let last = eta(map, travel, traveller, start, targets[n - 1]);
        if let Some(t) = least_eta(map, travel, traveller, start, targets, n - 1) {
            let i = choose|i: int|
                0 <= i < n - 1 && eta(map, travel, traveller, start, #[trigger] targets[i]) == Some(
                    t,
                );
            assert(eta(map, travel, traveller, start, targets[i]) == Some(t));
        }
        assert(eta(map, travel, traveller, start, targets[n - 1]) == last);
    }
}

proof fn lemma_least_of_meant(
    map: GameMap,
    travel: TravelTable,
    traveller: Traveller,
    start: GridPosition,
    targets: Seq<GridPosition>,
    meant: spec_fn(GridPosition) -> bool,
)
    requires
        forall|p: GridPosition| #[trigger] targets.contains(p) <==> meant(p),
    ensures
        is_least_time(
            map,
            travel,
            traveller,
            start,
            meant,
            least_eta(map, travel, traveller, start, targets, targets.len() as int),
        ),
{
    let n = targets.len() as int;
    lemma_least_eta(map, travel, traveller, start, targets, n);
    assert forall|p: GridPosition| #[trigger] meant(p) implies exists|i: int|
        0 <= i < n && #[trigger] targets[i] == p by {
        assert(targets.contains(p));
        let i = choose|i: int| 0 <= i < targets.len() && targets[i] == p;
        assert(targets[i] == p);
    }
    if let Some(t) = least_eta(map, travel, traveller, start, targets, n) {
        let i = choose|i: int|
            0 <= i < n && eta(map, travel, traveller, start, #[trigger] targets[i]) == Some(t);
        assert(targets.contains(targets[i]));
        assert(meant(targets[i]));
    }
}

/// A unit on the island needs no time to it. Any other needs the least time to a tile that it can
/// enter and that is on the island or, for a ship, beside it.
pub proof fn law_island_is_reached_where_it_is_nearest(
    map: GameMap,
    registry: MasterDataRegistry,
    travel: TravelTable,
    unit: UnitModel,
    tiles: Seq<GridPosition>,
)
    ensures
        ({
            let r = island_eta(map, registry, travel, unit, tiles);
            &&& tiles.contains(unit.position) ==> r == Some(0u32)
            &&& !tiles.contains(unit.position) ==> is_least_time(
                map,
                travel,
                Traveller {
                    player_id: unit.faction,
                    movement_type: unit.movement_type,
                    max_movement: unit.max_movement,
                },
                unit.position,
                |p: GridPosition|
                    can_enter(map, registry, unit.movement_type, p) && (tiles.contains(p) || (
                    unit.movement_type == MovementType::Ship && lies_beside(map, tiles, p))),
                r,
            )
        }),
{
    let meant = |p: GridPosition|
        can_enter(map, registry, unit.movement_type, p) && (tiles.contains(p) || (
        unit.movement_type == MovementType::Ship && lies_beside(map, tiles, p)));
    let targets = island_access(map, registry, tiles, unit.movement_type);
    law_island_access_as_set(map, registry, tiles, unit.movement_type);
    assert forall|p: GridPosition| #[trigger] targets.contains(p) <==> meant(p) by {
        assert(is_at_hand(map, unit.movement_type, tiles, p) <==> (tiles.contains(p) || (
        unit.movement_type == MovementType::Ship && lies_beside(map, tiles, p))));
    }
    lemma_least_of_meant(map, travel, traveller_of(unit), unit.position, targets, meant);
}

/// A landing tile is served in the least time to a tile that the unit can enter and that is the
/// landing tile itself or, for a ship, lies beside it.
pub proof fn law_landing_is_reached_where_it_is_nearest(
    map: GameMap,
    registry: MasterDataRegistry,
    travel: TravelTable,
    unit: UnitModel,
    drop_position: GridPosition,
)
    ensures
        is_least_time(
            map,
            travel,
            Traveller {
                player_id: unit.faction,
                movement_type: unit.movement_type,
                max_movement: unit.max_movement,
            },
            unit.position,
            |p: GridPosition|
                can_enter(map, registry, unit.movement_type, p) && (p == drop_position || (
                unit.movement_type == MovementType::Ship && map.adjacent(drop_position).contains(
                    p,
                ))),
            drop_eta(map, registry, travel, unit, drop_position),
        ),
{
    let meant = |p: GridPosition|
        can_enter(map, registry, unit.movement_type, p) && (p == drop_position || (
        unit.movement_type == MovementType::Ship && map.adjacent(drop_position).contains(p)));
    let one = seq![drop_position];
    let mine = island_access(map, registry, one, unit.movement_type);
    let targets = drop_access(map, registry, drop_position, unit.movement_type);
    law_sorted_positions(one);
    assert(sorted_positions(one) =~= one) by {
        let sorted = sorted_positions(one);
        assert(one.contains(one[0]));
        assert(sorted.contains(drop_position));
        assert forall|i: int| 0 <= i < sorted.len() implies #[trigger] sorted[i] == drop_position by {
            assert(sorted.contains(sorted[i]));
        }
        if sorted.len() > 1 {
            assert(sorted[0] == sorted[1]);
        }
    }
    assert(mine == targets);
    law_island_access_as_set(map, registry, one, unit.movement_type);
    assert forall|p: GridPosition| #[trigger] targets.contains(p) <==> meant(p) by {
        assert(one.contains(p) <==> p == drop_position) by {
            assert(one[0] == drop_position);
        }
        assert(lies_beside(map, one, p) <==> map.adjacent(drop_position).contains(p)) by {
            assert(one[0] == drop_position);
        }
        assert(is_at_hand(map, unit.movement_type, one, p) <==> (p == drop_position || (
        unit.movement_type == MovementType::Ship && map.adjacent(drop_position).contains(p))));
    }
    lemma_least_of_meant(map, travel, traveller_of(unit), unit.position, targets, meant);
}

/// A unit is worth its price in proportion to its health, rounded down and no more than there are
/// numbers for. Transports, supply trucks and units without a health limit are worth nothing in a
/// fight.
pub proof fn law_combat_worth_is_a_share_of_the_price(unit_type: UnitType, cost: u32, health: Health)
    ensures
        ({
            let worth = combat_worth(unit_type, cost, health);
            let helper = unit_type == UnitType::TransportHelicopter || unit_type == UnitType::Lander
                || unit_type == UnitType::SupplyTruck;
            &&& helper || health.max == 0 ==> worth == 0
            &&& !helper && health.max > 0 ==> {
                &&& worth * health.max <= cost * health.current
                &&& worth < u32::MAX ==> cost * health.current < (worth + 1) * health.max
            }
            &&& 0 <= worth <= u32::MAX
        }),
{
    if health.max > 0 {
        let whole = cost * health.current;
        let m = health.max as int;
        let q = whole / m;
        assert(0 <= whole) by (nonlinear_arith)
            requires
                whole == cost * health.current,
                0 <= cost,
                0 <= health.current,
        ;
        assert(0 <= q && q * m <= whole < (q + 1) * m) by (nonlinear_arith)
            requires
                q == whole / m,
                0 <= whole,
                0 < m,
        ;
        if q > u32::MAX {
            let top = u32::MAX as int;
            assert(top * m <= q * m) by (nonlinear_arith)
                requires
                    top <= q,
                    0 < m,
            ;
        }
    }
}

/// Capturing takes ten points off for each started ten of the unit's health each turn, and lasts
/// the fewest turns after which no points are left. A unit without health never captures anything.
pub proof fn law_capture_lasts_until_no_points_are_left(property: Property, health: Health)
    requires
        health.current <= 0xffff_fff0,
    ensures
        ({
            let turns = turns_to_capture(property, health);
            let tens = (health.current + 9) / 10;
            &&& health.current == 0 ==> turns == u32::MAX
            &&& health.current > 0 ==> {
                &&& turns * (10 * tens) >= property.capture_points
                &&& turns > 0 ==> (turns - 1) * (10 * tens) < property.capture_points
            }
        }),
{
    let tens = health.current.saturating_add(9) / 10;
    let power = saturating_product(tens, 10);
    assert(power == 10 * tens);
    if health.current > 0 {
        law_quotient_up_is_least_cover(property.capture_points, power);
    }
}

/// The time in which the unit takes the building from the start: the way, and then the capture.
pub open spec fn takes_building(
    map: GameMap,
    travel: TravelTable,
    unit: UnitModel,
    start: GridPosition,
    site: PropertySnapshot,
    time: u32,
) -> bool {
    let traveller = Traveller {
        player_id: unit.faction,
        movement_type: unit.movement_type,
        max_movement: unit.max_movement,
    };
    let way = eta(map, travel, traveller, start, site.position);
    let whole = way->0 + turns_to_capture(site.property, unit.health);
    &&& site.property.owner_id != Some(unit.faction)
    &&& way is Some
    &&& time == (if whole > u32::MAX {
        u32::MAX as int
    } else {
        whole
    })
}

proof fn lemma_time_to_take(
    map: GameMap,
    travel: TravelTable,
    unit: UnitModel,
    start: GridPosition,
    site: PropertySnapshot,
)
    ensures
        forall|time: u32|
            time_to_take(map, travel, unit, start, site) == Some(time) <==> #[trigger] takes_building(
                map,
                travel,
                unit,
                start,
                site,
                time,
            ),
{
    let power = saturating_product(unit.health.current.saturating_add(9) / 10, 10);
    lemma_quotient_fits(site.property.capture_points, power);
}

proof fn lemma_quotient_fits(a: u32, b: u32)
    ensures
        0 <= quotient_up(a, b) <= u32::MAX,
{
    if b > 0 {
        let (x, y) = (a as int, b as int);
        assert(0 <= (x + y - 1) / y <= x) by (nonlinear_arith)
            requires
                0 <= x,
                0 < y,
        ;
    }
}

proof fn lemma_least_time_to_take(
    map: GameMap,
    travel: TravelTable,
    unit: UnitModel,
    start: GridPosition,
    sites: Seq<PropertySnapshot>,
    n: int,
)
    requires
        0 <= n <= sites.len(),
    ensures
        match least_time_to_take(map, travel, unit, start, sites, n) {
            Some(t) => (exists|i: int|
                0 <= i < n && takes_building(map, travel, unit, start, #[trigger] sites[i], t))
                && forall|i: int, u: u32|
                0 <= i < n && #[trigger] takes_building(map, travel, unit, start, sites[i], u) ==> t
                    <= u,
            None => forall|i: int, u: u32|
                0 <= i < n ==> !#[trigger] takes_building(map, travel, unit, start, sites[i], u),
        },
    decreases n,
{
    if n > 0 {
        lemma_least_time_to_take(map, travel, unit, start, sites, n - 1);
        lemma_time_to_take(map, travel, unit, start, sites[n - 1]);
        if let Some(t) = least_time_to_take(map, travel, unit, start, sites, n - 1) {
            let i = choose|i: int|
                0 <= i < n - 1 && takes_building(map, travel, unit, start, #[trigger] sites[i], t);
            assert(takes_building(map, travel, unit, start, sites[i], t));
        }
        if let Some(u) = time_to_take(map, travel, unit, start, sites[n - 1]) {
            assert(takes_building(map, travel, unit, start, sites[n - 1], u));
        }
    }
}

/// The time to a capture is the least in which the unit takes a building that its owner does not
/// hold. There is none exactly if the unit cannot capture or gets to no such building.
pub proof fn law_capture_time_is_least(
    map: GameMap,
    travel: TravelTable,
    unit: UnitModel,
    start: GridPosition,
    sites: Seq<PropertySnapshot>,
)
    ensures
        match capture_time(map, travel, unit, start, sites) {
            Some(t) => unit.can_capture && (exists|i: int|
                0 <= i < sites.len() && takes_building(
                    map,
                    travel,
                    unit,
                    start,
                    #[trigger] sites[i],
                    t,
                )) && forall|i: int, u: u32|
                0 <= i < sites.len() && #[trigger] takes_building(
                    map,
                    travel,
                    unit,
                    start,
                    sites[i],
                    u,
                ) ==> t <= u,
            None => !unit.can_capture || forall|i: int, u: u32|
                0 <= i < sites.len() ==> !#[trigger] takes_building(
                    map,
                    travel,
                    unit,
                    start,
                    sites[i],
                    u,
                ),
        },
{
    lemma_least_time_to_take(map, travel, unit, start, sites, sites.len() as int);
}

proof fn lemma_worst_time(
    map: GameMap,
    registry: MasterDataRegistry,
    travel: TravelTable,
    unit: UnitModel,
    landings: Seq<GridPosition>,
    sites: Seq<PropertySnapshot>,
    n: int,
)
    requires
        0 <= n <= landings.len(),
    ensures
        ({
            let (sure, worst) = worst_time(map, registry, travel, unit, landings, sites, n);
            &&& !sure ==> worst is None && exists|i: int|
                0 <= i < n && can_enter(map, registry, unit.movement_type, #[trigger] landings[i])
                    && capture_time(map, travel, unit, landings[i], sites) is None
            &&& sure ==> forall|i: int|
                0 <= i < n && can_enter(map, registry, unit.movement_type, #[trigger] landings[i])
                    ==> worst is Some && capture_time(map, travel, unit, landings[i], sites) is Some
                    && capture_time(map, travel, unit, landings[i], sites)->0 <= worst->0
            &&& sure && worst is Some ==> exists|i: int|
                0 <= i < n && can_enter(map, registry, unit.movement_type, #[trigger] landings[i])
                    && capture_time(map, travel, unit, landings[i], sites) == worst
        }),
    decreases n,
{
    if n > 0 {
        lemma_worst_time(map, registry, travel, unit, landings, sites, n - 1);
        let (sure, worst) = worst_time(map, registry, travel, unit, landings, sites, n - 1);
        if !sure {
            let i = choose|i: int|
                0 <= i < n - 1 && can_enter(
                    map,
                    registry,
                    unit.movement_type,
                    #[trigger] landings[i],
                ) && capture_time(map, travel, unit, landings[i], sites) is None;
            assert(can_enter(map, registry, unit.movement_type, landings[i]));
        } else if worst is Some {
            let i = choose|i: int|
                0 <= i < n - 1 && can_enter(
                    map,
                    registry,
                    unit.movement_type,
                    #[trigger] landings[i],
                ) && capture_time(map, travel, unit, landings[i], sites) == worst;
            assert(can_enter(map, registry, unit.movement_type, landings[i]));
        }
        if can_enter(map, registry, unit.movement_type, landings[n - 1]) {
            assert(capture_time(map, travel, unit, landings[n - 1], sites) == capture_time(
                map,
                travel,
                unit,
                landings[n - 1],
                sites,
            ));
        }
    }
}

/// The cautious capture time is the greatest of those from the tiles of the island that the unit
/// can enter. There is none exactly if it can enter none, or if no capture follows one of them.
pub proof fn law_cautious_time_is_the_greatest(
    map: GameMap,
    registry: MasterDataRegistry,
    travel: TravelTable,
    unit: UnitModel,
    tiles: Seq<GridPosition>,
    sites: Seq<PropertySnapshot>,
)
    ensures
        match cautious_capture_time(map, registry, travel, unit, tiles, sites) {
            Some(w) => (exists|p: GridPosition| #[trigger]
                tiles.contains(p) && can_enter(map, registry, unit.movement_type, p)
                    && capture_time(map, travel, unit, p, sites) == Some(w)) && forall|
                p: GridPosition,
            | #[trigger]
                tiles.contains(p) && can_enter(map, registry, unit.movement_type, p)
                    ==> capture_time(map, travel, unit, p, sites) is Some && capture_time(
                    map,
                    travel,
                    unit,
                    p,
                    sites,
                )->0 <= w,
            None => (forall|p: GridPosition| #[trigger]
                tiles.contains(p) ==> !can_enter(map, registry, unit.movement_type, p)) || exists|
                p: GridPosition,
            | #[trigger]
                tiles.contains(p) && can_enter(map, registry, unit.movement_type, p)
                    && capture_time(map, travel, unit, p, sites) is None,
        },
{
    let landings = sorted_positions(tiles);
    let n = landings.len() as int;
    law_sorted_positions(tiles);
    lemma_worst_time(map, registry, travel, unit, landings, sites, n);
    let (sure, worst) = worst_time(map, registry, travel, unit, landings, sites, n);
    assert forall|p: GridPosition| #[trigger] tiles.contains(p) implies exists|i: int|
        0 <= i < n && #[trigger] landings[i] == p by {
        assert(landings.contains(p));
        let i = choose|i: int| 0 <= i < landings.len() && landings[i] == p;
        assert(landings[i] == p);
    }
    assert forall|i: int| 0 <= i < n implies tiles.contains(#[trigger] landings[i]) by {
        assert(landings.contains(landings[i]));
    }
}

} // verus!
