//! How much a unit is worth to a player who could build it now.
use crate::arith::{saturating_mul, saturating_product};
use crate::damage::DamageChart;
use crate::grid::{
    contains_position, manhattan, manhattan_distance, GameMap, GridPosition, Terrain,
};
use crate::master_data::MasterDataRegistry;
use crate::units::{contains_type, MovementType, UnitStats, UnitType};
use vstd::prelude::*;

verus! {

/// How the game stands.
#[derive(Clone, Copy, Debug, PartialEq, Eq, Structural)]
pub enum GamePhase {
    Expansion,
    Contested,
    Assault,
    Defense,
}

/// What a player is after.
#[derive(Clone, Debug)]
pub struct ProductionStrategy {
    pub phase: GamePhase,
    pub priority_targets: Vec<GridPosition>,
    pub unowned_properties: Vec<GridPosition>,
    /// Where the island campaigns attack.
    pub offensive_targets: Vec<GridPosition>,
    pub existing_transport_count: u32,
    /// How many units wait to be carried.
    pub transport_candidate_count: usize,
}

/// What a player still lacks.
#[derive(Clone, Copy, Debug, PartialEq, Eq, Structural)]
pub struct ProductionDemands {
    /// Units that capture.
    pub capture: u32,
    /// Room for light units on transports.
    pub light_transport: u32,
    /// Room for heavy units on transports.
    pub heavy_transport: u32,
}

/// How a type's share of the army compares with the share it should have.
#[derive(Clone, Copy, Debug, PartialEq, Eq, Structural)]
pub enum CompositionGap {
    /// Too few: worth this much more.
    Short(i32),
    /// Neither too few nor far too many.
    Balanced,
    /// More than a tenth too many.
    Excess,
}

/// The parts of a unit's worth that are weighed outside, in points.
#[derive(Clone, Copy, Debug, PartialEq, Eq, Structural)]
pub struct ScoreTerms {
    /// The time that waiting units save on a transport.
    pub transport_utility: u32,
    /// What a transport could carry across the water.
    pub invasion_value: u32,
    /// How well the unit trades against the enemy's army.
    pub counter: i32,
    /// What the unit adds to the air defence.
    pub air_defense: u32,
    pub composition: CompositionGap,
}

/// How long the way is in turns, by distance alone.
pub open spec fn travel_turns(distance: nat, cost: u32, movement: u32) -> nat {
    let reach = distance * cost as nat + movement as nat;
    let steps = if movement == 0 {
        1
    } else {
        movement as nat
    };
    (if reach > 0 {
        (reach - 1) as nat
    } else {
        0
    }) / steps
}

/// How long the way is in turns, by distance alone.
pub fn turns_needed(distance: u128, cost: u32, movement: u32) -> (r: u128)
    requires
        distance <= 0x4_0000_0000_0000_0000,
    ensures
        r == travel_turns(distance as nat, cost, movement),
{
    proof {
        assert(0 <= distance * cost <= 0x4_0000_0000_0000_0000u128 * 0xffff_ffffu128)
            by (nonlinear_arith)
            requires
                0 <= distance <= 0x4_0000_0000_0000_0000u128,
                0 <= cost <= 0xffff_ffffu128,
        ;
    }
    let reach: u128 = distance * cost as u128 + movement as u128;
    let steps: u128 = if movement == 0 {
        1
    } else {
        movement as u128
    };
    let whole: u128 = if reach > 0 {
        reach - 1
    } else {
        0
    };
    whole / steps
}

/// What entering the terrain costs, or one where the table says nothing.
pub open spec fn step_cost(
    registry: MasterDataRegistry,
    movement_type: MovementType,
    terrain: Terrain,
) -> u32 {
    match registry.listed_cost(movement_type, terrain) {
        Some(cost) => cost,
        None => 1,
    }
}

fn find_step_cost(
    registry: &MasterDataRegistry,
    movement_type: MovementType,
    terrain: Terrain,
) -> (r: u32)
    ensures
        r == step_cost(*registry, movement_type, terrain),
{
    match registry.get_movement_cost(movement_type, terrain) {
        Some(cost) => cost,
        None => 1,
    }
}

/// Ships can be on the tile.
pub open spec fn sails(map: GameMap, registry: MasterDataRegistry, p: GridPosition) -> bool {
    match map.terrain_at(p) {
        Some(terrain) => registry.entry_cost(MovementType::Ship, terrain) is Some,
        None => false,
    }
}

/// Ships get to the tile or right beside it.
pub open spec fn ship_reaches(map: GameMap, registry: MasterDataRegistry, p: GridPosition) -> bool {
    sails(map, registry, p) || exists|i: int|
        0 <= i < map.adjacent(p).len() && sails(map, registry, #[trigger] map.adjacent(p)[i])
}

fn can_sail(map: &GameMap, registry: &MasterDataRegistry, p: GridPosition) -> (r: bool)
    ensures
        r == sails(*map, *registry, p),
{
    match map.get_terrain(p.x, p.y) {
        Some(terrain) => registry.get_valid_movement_cost(MovementType::Ship, terrain).is_some(),
        None => false,
    }
}

/// Whether ships get to the tile or right beside it.
pub fn is_coastal(map: &GameMap, registry: &MasterDataRegistry, p: GridPosition) -> (r: bool)
    ensures
        r == ship_reaches(*map, *registry, p),
{
    if can_sail(map, registry, p) {
        return true;
    }
    let around = map.get_adjacent(p.x, p.y);
    let mut i: usize = 0;
    while i < around.len()
        invariant
            i <= around.len(),
            around@ == map.adjacent(p),
            forall|j: int| 0 <= j < i ==> !sails(*map, *registry, #[trigger] map.adjacent(p)[j]),
        decreases around.len() - i,
    {
        if can_sail(map, registry, around[i]) {
            assert(sails(*map, *registry, map.adjacent(p)[i as int]));
            return true;
        }
        i += 1;
    }
    false
}

/// The shortest of the unit's own time and the times of rides on the first `n` empty transports
/// that stand on its tile and take it.
pub open spec fn ride_turns(
    registry: MasterDataRegistry,
    transports: Seq<(GridPosition, UnitStats)>,
    position: GridPosition,
    unit_type: UnitType,
    distance: nat,
    own: nat,
    n: int,
) -> nat
    decreases n,
{
    if n <= 0 {
        own
    } else {
        let best = ride_turns(
            registry,
            transports,
            position,
            unit_type,
            distance,
            own,
            n - 1,
        );
        let (place, ride) = transports[n - 1];
        let turns = travel_turns(
            distance,
            step_cost(registry, ride.movement_type, Terrain::Plains),
            ride.max_movement,
        );
        if place == position && ride.loadable_unit_types@.contains(unit_type) && turns < best {
            turns
        } else {
            best
        }
    }
}

fn find_ride_turns(
    registry: &MasterDataRegistry,
    transports: &Vec<(GridPosition, UnitStats)>,
    position: GridPosition,
    unit_type: UnitType,
    distance: u128,
    own: u128,
) -> (r: u128)
    requires
        distance <= 0x4_0000_0000_0000_0000,
    ensures
        r == ride_turns(
            *registry,
            transports@,
            position,
            unit_type,
            distance as nat,
            own as nat,
            transports.len() as int,
        ),
{
    let mut best: u128 = own;
    let mut n: usize = 0;
    while n < transports.len()
        invariant
            n <= transports.len(),
            distance <= 0x4_0000_0000_0000_0000,
            best == ride_turns(
                *registry,
                transports@,
                position,
                unit_type,
                distance as nat,
                own as nat,
                n as int,
            ),
        decreases transports.len() - n,
    {
        let ride = &transports[n].1;
        let cost: u32 = find_step_cost(registry, ride.movement_type, Terrain::Plains);
        let turns: u128 = turns_needed(distance, cost, ride.max_movement);
        if transports[n].0 == position && contains_type(&ride.loadable_unit_types, unit_type)
            && turns < best {
            best = turns;
        }
        n += 1;
    }
    best
}

/// The tile is out of reach for a ship.
pub open spec fn beached(
    map: GameMap,
    registry: MasterDataRegistry,
    stats: UnitStats,
    target: GridPosition,
) -> bool {
    stats.movement_type == MovementType::Ship && !ship_reaches(map, registry, target)
}

/// How much farther a target counts that a ship cannot get to: far for one that must come close,
/// little for one that carries others, less far for one that shoots over a distance.
pub open spec fn detour(stats: UnitStats) -> nat {
    if stats.max_range <= 1 {
        if stats.max_cargo == 0 {
            20
        } else {
            5
        }
    } else {
        10
    }
}

/// How long a new unit takes to the target.
pub open spec fn target_turns(
    map: GameMap,
    registry: MasterDataRegistry,
    transports: Seq<(GridPosition, UnitStats)>,
    stats: UnitStats,
    position: GridPosition,
    target: GridPosition,
) -> nat {
    let ship = stats.movement_type == MovementType::Ship;
    let cut_off = beached(map, registry, stats, target);
    let distance = manhattan(position, target) + (if cut_off {
        detour(stats)
    } else {
        0
    });
    let ground = if ship {
        Terrain::Sea
    } else {
        Terrain::Plains
    };
    let own = travel_turns(
        distance,
        step_cost(registry, stats.movement_type, ground),
        stats.max_movement,
    );
    let turns = ride_turns(
        registry,
        transports,
        position,
        stats.unit_type,
        distance,
        own,
        transports.len() as int,
    );
    if ship && !cut_off {
        if turns > 3 {
            (turns - 2) as nat
        } else {
            1
        }
    } else {
        turns
    }
}

fn find_target_turns(
    map: &GameMap,
    registry: &MasterDataRegistry,
    transports: &Vec<(GridPosition, UnitStats)>,
    stats: &UnitStats,
    position: GridPosition,
    target: GridPosition,
    cut_off: bool,
) -> (r: u128)
    requires
        cut_off == beached(*map, *registry, *stats, target),
    ensures
        r == target_turns(*map, *registry, transports@, *stats, position, target),
{
    let ship: bool = stats.movement_type == MovementType::Ship;
    let more: u128 = if !cut_off {
        0
    } else if stats.max_range > 1 {
        10
    } else if stats.max_cargo == 0 {
        20
    } else {
        5
    };
    let distance: u128 = manhattan_distance(position, target) + more;
    let ground = if ship {
        Terrain::Sea
    } else {
        Terrain::Plains
    };
    let cost: u32 = find_step_cost(registry, stats.movement_type, ground);
    let own: u128 = turns_needed(distance, cost, stats.max_movement);
    let turns: u128 = find_ride_turns(
        registry,
        transports,
        position,
        stats.unit_type,
        distance,
        own,
    );
    if ship && !cut_off {
        if turns > 3 {
            turns - 2
        } else {
            1
        }
    } else {
        turns
    }
}

/// How soon a unit is where it is wanted, at most ninety-nine turns, and what that is worth at
/// best.
#[derive(Clone, Copy, Debug, PartialEq, Eq, Structural)]
pub struct Approach {
    pub turns: u32,
    pub base: u32,
}

/// How the unit gets to the nearest of the first `n` targets. What cannot capture has no business
/// at a property that nobody owns.
pub open spec fn approach(
    map: GameMap,
    registry: MasterDataRegistry,
    transports: Seq<(GridPosition, UnitStats)>,
    strategy: ProductionStrategy,
    stats: UnitStats,
    position: GridPosition,
    n: int,
) -> Approach
    decreases n,
{
    if n <= 0 {
        Approach { turns: 99, base: 2000 }
    } else {
        let best = approach(map, registry, transports, strategy, stats, position, n - 1);
        let target = strategy.priority_targets@[n - 1];
        if strategy.unowned_properties@.contains(target) && !stats.can_capture {
            best
        } else {
            let turns = target_turns(map, registry, transports, stats, position, target);
            Approach {
                turns: if turns < best.turns {
                    turns as u32
                } else {
                    best.turns
                },
                base: if beached(map, registry, stats, target) && stats.max_range <= 1
                    && stats.max_cargo == 0 {
                    best.base / 4
                } else {
                    best.base
                },
            }
        }
    }
}

fn find_approach(
    map: &GameMap,
    registry: &MasterDataRegistry,
    transports: &Vec<(GridPosition, UnitStats)>,
    strategy: &ProductionStrategy,
    stats: &UnitStats,
    position: GridPosition,
) -> (r: Approach)
    ensures
        r == approach(
            *map,
            *registry,
            transports@,
            *strategy,
            *stats,
            position,
            strategy.priority_targets.len() as int,
        ),
        r.turns <= 99,
        r.base <= 2000,
{
    let mut best = Approach { turns: 99, base: 2000 };
    let mut n: usize = 0;
    while n < strategy.priority_targets.len()
        invariant
            n <= strategy.priority_targets.len(),
            best == approach(
                *map,
                *registry,
                transports@,
                *strategy,
                *stats,
                position,
                n as int,
            ),
            best.turns <= 99,
            best.base <= 2000,
        decreases strategy.priority_targets.len() - n,
    {
        let target = strategy.priority_targets[n];
        let idle: bool = contains_position(&strategy.unowned_properties, target)
            && !stats.can_capture;
        if !idle {
            let cut_off: bool = stats.movement_type == MovementType::Ship && !is_coastal(
                map,
                registry,
                target,
            );
            let turns: u128 = find_target_turns(
                map,
                registry,
                transports,
                stats,
                position,
                target,
                cut_off,
            );
            if turns < best.turns as u128 {
                best.turns = turns as u32;
            }
            if cut_off && stats.max_range <= 1 && stats.max_cargo == 0 {
                best.base = best.base / 4;
            }
        }
        n += 1;
    }
    best
}

/// What a unit is worth by how soon it is where it is wanted.
pub open spec fn base_score(strategy: ProductionStrategy, way: Approach) -> u32 {
    if strategy.priority_targets.len() == 0 {
        100
    } else if way.base > way.turns * 40 + 1 {
        (way.base - way.turns * 40) as u32
    } else {
        1
    }
}

/// The worth with what capturing adds: much while units that capture are lacking, and more where
/// there is something to capture nearby; otherwise such units are worth less.
pub open spec fn capture_score(
    score: u32,
    phase: GamePhase,
    demands: ProductionDemands,
    stats: UnitStats,
    turns: u32,
) -> u32 {
    if !stats.can_capture {
        score
    } else if demands.capture > 0 {
        let more = score.saturating_add(saturating_product(2500, demands.capture));
        if turns <= 2 {
            more.saturating_add(2000)
        } else {
            more
        }
    } else if phase == GamePhase::Expansion {
        score.saturating_sub(1000)
    } else {
        score.saturating_sub(2000)
    }
}

fn add_capture_score(
    score: u32,
    phase: GamePhase,
    demands: ProductionDemands,
    stats: &UnitStats,
    turns: u32,
) -> (r: u32)
    ensures
        r == capture_score(score, phase, demands, *stats, turns),
{
    if !stats.can_capture {
        score
    } else if demands.capture > 0 {
        let more: u32 = score.saturating_add(saturating_mul(2500, demands.capture));
        if turns <= 2 {
            more.saturating_add(2000)
        } else {
            more
        }
    } else if phase == GamePhase::Expansion {
        score.saturating_sub(1000)
    } else {
        score.saturating_sub(2000)
    }
}

/// The spacing of the numbers that a single-precision number can hold near `score`.
pub open spec fn single_step(score: u32) -> u32 {
    if score < 0x0200_0000 {
        2
    } else if score < 0x0400_0000 {
        4
    } else if score < 0x0800_0000 {
        8
    } else if score < 0x1000_0000 {
        16
    } else if score < 0x2000_0000 {
        32
    } else if score < 0x4000_0000 {
        64
    } else if score < 0x8000_0000 {
        128
    } else {
        256
    }
}

/// Half of the score, rounded down. From two to the power of twenty-four on, the score is first
/// rounded to the nearest number that single precision holds, to the even one of two.
pub open spec fn halved(score: u32) -> u32 {
    if score < 0x0100_0000 {
        score / 2
    } else {
        let step = single_step(score);
        let whole = score / step;
        let rest = score % step;
        let rounded = if rest * 2 > step || (rest * 2 == step && whole % 2 == 1) {
            whole + 1
        } else {
            whole as int
        };
        (rounded * (step / 2)) as u32
    }
}

fn half_of(score: u32) -> (r: u32)
    ensures
        r == halved(score),
{
    if score < 0x0100_0000 {
        return score / 2;
    }
    let step: u32 = if score < 0x0200_0000 {
        2
    } else if score < 0x0400_0000 {
        4
    } else if score < 0x0800_0000 {
        8
    } else if score < 0x1000_0000 {
        16
    } else if score < 0x2000_0000 {
        32
    } else if score < 0x4000_0000 {
        64
    } else if score < 0x8000_0000 {
        128
    } else {
        256
    };
    let whole: u32 = score / step;
    let rest: u32 = score % step;
    proof {
        assert(whole <= 0x0100_0000) by (nonlinear_arith)
            requires
                whole == score / step,
                score < step * 0x0100_0000,
                0 < step,
        ;
    }
    let rounded: u32 = if rest * 2 > step || (rest * 2 == step && whole % 2 == 1) {
        whole + 1
    } else {
        whole
    };
    let half: u32 = step / 2;
    proof {
        assert(rounded * half <= 0x0100_0001u64 * 128u64) by (nonlinear_arith)
            requires
                0 <= rounded <= 0x0100_0001,
                0 <= half <= 128,
        ;
    }
    rounded * half
}

/// The need for what the transport carries: for heavy units where it takes tanks, for light ones
/// where it takes infantry, for the greater need where it takes both.
pub open spec fn transport_demand(demands: ProductionDemands, stats: UnitStats) -> u32 {
    if stats.loadable_unit_types@.contains(UnitType::Tank) {
        if stats.loadable_unit_types@.contains(UnitType::Infantry)
            && demands.light_transport > demands.heavy_transport {
            demands.light_transport
        } else {
            demands.heavy_transport
        }
    } else {
        demands.light_transport
    }
}

/// The unit is weighed as a transport: it carries, something waits, and there is somewhere to go.
/// The third rule set asks for room to cross the sea and for a campaign that attacks.
pub open spec fn weighed_as_transport(
    strategy: ProductionStrategy,
    stats: UnitStats,
    sea_slots: (u32, u32),
    is_v3: bool,
) -> bool {
    &&& if is_v3 {
        sea_slots.0 > 0 || sea_slots.1 > 0
    } else {
        stats.max_cargo > 0
    }
    &&& strategy.transport_candidate_count > 0
    &&& if is_v3 {
        strategy.offensive_targets.len() > 0
    } else {
        strategy.priority_targets.len() > 0
    }
}

/// The worth with what carrying adds. The more transports there are, the less another one counts.
pub open spec fn transport_score(
    score: u32,
    strategy: ProductionStrategy,
    demands: ProductionDemands,
    stats: UnitStats,
    terms: ScoreTerms,
) -> u32 {
    let gained = score.saturating_add(terms.transport_utility).saturating_add(
        terms.invasion_value,
    );
    let demand = transport_demand(demands, stats);
    let wanted = if demand == 0 {
        gained.saturating_sub(3000)
    } else {
        gained.saturating_add(saturating_product(demand, 1500))
    };
    let second = if strategy.existing_transport_count >= 1 {
        halved(wanted)
    } else {
        wanted
    };
    if strategy.existing_transport_count >= 2 {
        second.saturating_sub(2000)
    } else {
        second
    }
}

fn add_transport_score(
    score: u32,
    strategy: &ProductionStrategy,
    demands: ProductionDemands,
    stats: &UnitStats,
    terms: &ScoreTerms,
) -> (r: u32)
    ensures
        r == transport_score(score, *strategy, demands, *stats, *terms),
{
    let gained: u32 = score.saturating_add(terms.transport_utility).saturating_add(
        terms.invasion_value,
    );
    let heavy: bool = contains_type(&stats.loadable_unit_types, UnitType::Tank);
    let light: bool = contains_type(&stats.loadable_unit_types, UnitType::Infantry);
    let demand: u32 = if heavy && !(light && demands.light_transport
        > demands.heavy_transport) {
        demands.heavy_transport
    } else {
        demands.light_transport
    };
    let wanted: u32 = if demand == 0 {
        gained.saturating_sub(3000)
    } else {
        gained.saturating_add(saturating_mul(demand, 1500))
    };
    let second: u32 = if strategy.existing_transport_count >= 1 {
        half_of(wanted)
    } else {
        wanted
    };
    if strategy.existing_transport_count >= 2 {
        second.saturating_sub(2000)
    } else {
        second
    }
}

/// The worth with what a port adds for ships, and for ships that shoot far.
pub open spec fn port_score(score: u32, stats: UnitStats, produced_at: Terrain) -> u32 {
    if produced_at == Terrain::Port && stats.movement_type == MovementType::Ship {
        if stats.max_range > 1 {
            score.saturating_add(3000).saturating_add(2000)
        } else {
            score.saturating_add(3000)
        }
    } else {
        score
    }
}

/// Three times how well the unit trades, within bounds; a quarter of it, rounded toward zero,
/// while the game is young.
pub open spec fn counter_points(counter: i32, phase: GamePhase) -> int {
    let points = if counter * 3 < -4000 {
        -4000
    } else if counter * 3 > 8000 {
        8000
    } else {
        counter * 3
    };
    if phase != GamePhase::Expansion {
        points
    } else if points >= 0 {
        points / 4
    } else {
        -((-points) / 4)
    }
}

/// The sum, kept within what a score can be.
pub open spec fn shifted(score: u32, points: int) -> u32 {
    if score + points < 0 {
        0
    } else if score + points > u32::MAX {
        u32::MAX
    } else {
        (score + points) as u32
    }
}

fn add_counter_points(score: u32, counter: i32, phase: GamePhase) -> (r: u32)
    ensures
        r == shifted(score, counter_points(counter, phase)),
{
    let wide: i64 = counter as i64 * 3;
    let points: i64 = if wide < -4000 {
        -4000
    } else if wide > 8000 {
        8000
    } else {
        wide
    };
    let gain: i64 = if points >= 0 {
        points
    } else {
        0
    };
    let loss: i64 = if points >= 0 {
        0
    } else {
        0 - points
    };
    let (more, less): (u32, u32) = (gain as u32, loss as u32);
    if phase == GamePhase::Expansion {
        score.saturating_add(more / 4).saturating_sub(less / 4)
    } else {
        score.saturating_add(more).saturating_sub(less)
    }
}

/// What the unit's weapons are worth against one enemy, by how hard they hit.
pub open spec fn matchup_score(
    score: u32,
    chart: DamageChart,
    unit_type: UnitType,
    enemy: UnitType,
) -> u32 {
    let first = match chart.first(unit_type, enemy) {
        Some(damage) => if damage >= 80 {
            score.saturating_add(500).saturating_add(1000)
        } else if damage >= 50 {
            score.saturating_add(500)
        } else {
            score
        },
        None => score,
    };
    match chart.second(unit_type, enemy) {
        Some(damage) => if damage >= 30 {
            first.saturating_add(300)
        } else {
            first
        },
        None => first,
    }
}

/// The worth with what the weapons add against the first `n` enemies.
pub open spec fn matchups_score(
    score: u32,
    chart: DamageChart,
    unit_type: UnitType,
    enemies: Seq<(GridPosition, UnitStats)>,
    n: int,
) -> u32
    decreases n,
{
    if n <= 0 {
        score
    } else {
        matchup_score(
            matchups_score(score, chart, unit_type, enemies, n - 1),
            chart,
            unit_type,
            enemies[n - 1].1.unit_type,
        )
    }
}

fn add_matchups(
    score: u32,
    chart: &DamageChart,
    unit_type: UnitType,
    enemies: &Vec<(GridPosition, UnitStats)>,
) -> (r: u32)
    ensures
        r == matchups_score(score, *chart, unit_type, enemies@, enemies.len() as int),
{
    let mut r: u32 = score;
    let mut n: usize = 0;
    while n < enemies.len()
        invariant
            n <= enemies.len(),
            r == matchups_score(score, *chart, unit_type, enemies@, n as int),
        decreases enemies.len() - n,
    {
        let enemy = enemies[n].1.unit_type;
        if let Some(damage) = chart.get_base_damage(unit_type, enemy) {
            if damage >= 50 {
                r = r.saturating_add(500);
            }
            if damage >= 80 {
                r = r.saturating_add(1000);
            }
        }
        if let Some(damage) = chart.get_base_damage_secondary(unit_type, enemy) {
            if damage >= 30 {
                r = r.saturating_add(300);
            }
        }
        n += 1;
    }
    r
}

/// What the ground at the target is worth.
pub open spec fn property_value(map: GameMap, target: GridPosition) -> u32 {
    match map.terrain_at(target) {
        Some(Terrain::Capital) => 5000,
        Some(Terrain::Factory) => 3000,
        Some(Terrain::Port) => 2000,
        Some(Terrain::Airport) => 2000,
        _ => 1000,
    }
}

/// What the ground at the target is worth.
pub fn target_property_value(map: &GameMap, target: GridPosition) -> (r: u32)
    ensures
        r == property_value(*map, target),
{
    match map.get_terrain(target.x, target.y) {
        Some(Terrain::Capital) => 5000,
        Some(Terrain::Factory) => 3000,
        Some(Terrain::Port) => 2000,
        Some(Terrain::Airport) => 2000,
        _ => 1000,
    }
}

/// The number, or the greatest that a score can be.
pub open spec fn clipped(n: nat) -> u32 {
    if n > u32::MAX {
        u32::MAX
    } else {
        n as u32
    }
}

/// What it is worth to keep one enemy from the target: nothing where the unit would be there
/// first or does no harm, less the later it comes.
pub open spec fn interception(
    map: GameMap,
    chart: DamageChart,
    unit_type: UnitType,
    stats: UnitStats,
    position: GridPosition,
    target: GridPosition,
    enemy: (GridPosition, UnitStats),
) -> u32 {
    let theirs = travel_turns(manhattan(enemy.0, target), 1, enemy.1.max_movement);
    let ours = travel_turns(manhattan(position, target), 1, stats.max_movement);
    let damage = match chart.first(unit_type, enemy.1.unit_type) {
        Some(d) => d,
        None => 0,
    };
    if enemy.1.can_capture && theirs <= ours {
        let wait = if ours > 1 {
            ours
        } else {
            1
        };
        clipped((property_value(map, target) as nat * damage as nat) / (wait * 10))
    } else {
        0
    }
}

fn find_interception(
    map: &GameMap,
    chart: &DamageChart,
    unit_type: UnitType,
    stats: &UnitStats,
    position: GridPosition,
    target: GridPosition,
    enemy: &(GridPosition, UnitStats),
) -> (r: u32)
    ensures
        r == interception(*map, *chart, unit_type, *stats, position, target, *enemy),
{
    let theirs: u128 = turns_needed(
        manhattan_distance(enemy.0, target),
        1,
        enemy.1.max_movement,
    );
    let ours: u128 = turns_needed(manhattan_distance(position, target), 1, stats.max_movement);
    if !enemy.1.can_capture || theirs > ours {
        return 0;
    }
    let damage: u32 = match chart.get_base_damage(unit_type, enemy.1.unit_type) {
        Some(d) => d,
        None => 0,
    };
    let wait: u128 = if ours > 1 {
        ours
    } else {
        1
    };
    let value: u32 = target_property_value(map, target);
    proof {
        lemma_turns_bound(manhattan(position, target), 1, stats.max_movement);
        assert(0 <= value * damage <= 5000u128 * 0xffff_ffffu128) by (nonlinear_arith)
            requires
                0 <= value <= 5000,
                0 <= damage <= 0xffff_ffff,
        ;
    }
    let worth: u128 = (value as u128 * damage as u128) / (wait * 10);
    if worth > 0xffff_ffff {
        0xffff_ffff
    } else {
        worth as u32
    }
}

/// No way takes more turns than it has points to pay.
proof fn lemma_turns_bound(distance: nat, cost: u32, movement: u32)
    ensures
        travel_turns(distance, cost, movement) <= distance * cost as nat + movement as nat,
{
    let reach = distance * cost as nat + movement as nat;
    let steps: nat = if movement == 0 {
        1
    } else {
        movement as nat
    };
    let whole: nat = if reach > 0 {
        (reach - 1) as nat
    } else {
        0
    };
    assert(whole / steps <= whole) by (nonlinear_arith)
        requires
            steps >= 1,
    ;
}

/// The worth with what keeping the first `m` enemies from one target adds.
pub open spec fn target_interceptions(
    score: u32,
    map: GameMap,
    chart: DamageChart,
    unit_type: UnitType,
    stats: UnitStats,
    position: GridPosition,
    target: GridPosition,
    enemies: Seq<(GridPosition, UnitStats)>,
    m: int,
) -> u32
    decreases m,
{
    if m <= 0 {
        score
    } else {
        target_interceptions(
            score,
            map,
            chart,
            unit_type,
            stats,
            position,
            target,
            enemies,
            m - 1,
        ).saturating_add(
            interception(map, chart, unit_type, stats, position, target, enemies[m - 1]),
        )
    }
}

/// The worth with what keeping the enemies from those of the first `n` targets adds that nobody
/// owns.
pub open spec fn interceptions(
    score: u32,
    map: GameMap,
    chart: DamageChart,
    unit_type: UnitType,
    stats: UnitStats,
    position: GridPosition,
    strategy: ProductionStrategy,
    enemies: Seq<(GridPosition, UnitStats)>,
    n: int,
) -> u32
    decreases n,
{
    if n <= 0 {
        score
    } else {
        let before = interceptions(
            score,
            map,
            chart,
            unit_type,
            stats,
            position,
            strategy,
            enemies,
            n - 1,
        );
        let target = strategy.priority_targets@[n - 1];
        if strategy.unowned_properties@.contains(target) {
            target_interceptions(
                before,
                map,
                chart,
                unit_type,
                stats,
                position,
                target,
                enemies,
                enemies.len() as int,
            )
        } else {
            before
        }
    }
}

fn add_target_interceptions(
    score: u32,
    map: &GameMap,
    chart: &DamageChart,
    unit_type: UnitType,
    stats: &UnitStats,
    position: GridPosition,
    target: GridPosition,
    enemies: &Vec<(GridPosition, UnitStats)>,
) -> (r: u32)
    ensures
        r == target_interceptions(
            score,
            *map,
            *chart,
            unit_type,
            *stats,
            position,
            target,
            enemies@,
            enemies.len() as int,
        ),
{
    let mut r: u32 = score;
    let mut m: usize = 0;
    while m < enemies.len()
        invariant
            m <= enemies.len(),
            r == target_interceptions(
                score,
                *map,
                *chart,
                unit_type,
                *stats,
                position,
                target,
                enemies@,
                m as int,
            ),
        decreases enemies.len() - m,
    {
        let more: u32 = find_interception(
            map,
            chart,
            unit_type,
            stats,
            position,
            target,
            &enemies[m],
        );
        r = r.saturating_add(more);
        m += 1;
    }
    r
}

fn add_interceptions(
    score: u32,
    map: &GameMap,
    chart: &DamageChart,
    unit_type: UnitType,
    stats: &UnitStats,
    position: GridPosition,
    strategy: &ProductionStrategy,
    enemies: &Vec<(GridPosition, UnitStats)>,
) -> (r: u32)
    ensures
        r == interceptions(
            score,
            *map,
            *chart,
            unit_type,
            *stats,
            position,
            *strategy,
            enemies@,
            strategy.priority_targets.len() as int,
        ),
{
    let mut r: u32 = score;
    let mut n: usize = 0;
    while n < strategy.priority_targets.len()
        invariant
            n <= strategy.priority_targets.len(),
            r == interceptions(
                score,
                *map,
                *chart,
                unit_type,
                *stats,
                position,
                *strategy,
                enemies@,
                n as int,
            ),
        decreases strategy.priority_targets.len() - n,
    {
        let target = strategy.priority_targets[n];
        if contains_position(&strategy.unowned_properties, target) {
            r = add_target_interceptions(
                r,
                map,
                chart,
                unit_type,
                stats,
                position,
                target,
                enemies,
            );
        }
        n += 1;
    }
    r
}

/// The worth with what the phase of the game adds: speed early on, tanks in battle, far-shooting
/// and cheap units in defence.
pub open spec fn phase_score(score: u32, phase: GamePhase, stats: UnitStats) -> u32 {
    match phase {
        GamePhase::Expansion => if stats.max_movement >= 6 {
            score.saturating_add(500)
        } else {
            score
        },
        GamePhase::Defense => {
            let far = if stats.min_range > 1 {
                score.saturating_add(1500)
            } else {
                score
            };
            if stats.cost <= 3000 {
                far.saturating_add(500)
            } else {
                far
            }
        },
        _ => if stats.unit_type == UnitType::Tank || stats.unit_type == UnitType::MdTank
            || stats.unit_type == UnitType::TankZ {
            score.saturating_add(1000)
        } else {
            score
        },
    }
}

fn add_phase_score(score: u32, phase: GamePhase, stats: &UnitStats) -> (r: u32)
    ensures
        r == phase_score(score, phase, *stats),
{
    match phase {
        GamePhase::Expansion => if stats.max_movement >= 6 {
            score.saturating_add(500)
        } else {
            score
        },
        GamePhase::Defense => {
            let far: u32 = if stats.min_range > 1 {
                score.saturating_add(1500)
            } else {
                score
            };
            if stats.cost <= 3000 {
                far.saturating_add(500)
            } else {
                far
            }
        },
        _ => if stats.unit_type == UnitType::Tank || stats.unit_type == UnitType::MdTank
            || stats.unit_type == UnitType::TankZ {
            score.saturating_add(1000)
        } else {
            score
        },
    }
}

/// The unit only fights: it neither captures nor carries nor supplies.
pub open spec fn only_fights(stats: UnitStats) -> bool {
    !stats.can_capture && stats.max_cargo == 0 && !stats.can_supply
}

/// The type harms some enemy.
pub open spec fn harms_any(
    chart: DamageChart,
    unit_type: UnitType,
    enemies: Seq<(GridPosition, UnitStats)>,
) -> bool {
    exists|e: int|
        0 <= e < enemies.len() && chart.best(unit_type, (#[trigger] enemies[e]).1.unit_type) > 0
}

fn finds_target(
    chart: &DamageChart,
    unit_type: UnitType,
    enemies: &Vec<(GridPosition, UnitStats)>,
) -> (r: bool)
    ensures
        r == harms_any(*chart, unit_type, enemies@),
{
    let mut e: usize = 0;
    while e < enemies.len()
        invariant
            e <= enemies.len(),
            forall|i: int|
                0 <= i < e ==> chart.best(unit_type, (#[trigger] enemies@[i]).1.unit_type) == 0,
        decreases enemies.len() - e,
    {
        if chart.best_damage(unit_type, enemies[e].1.unit_type) > 0 {
            assert(chart.best(unit_type, enemies@[e as int].1.unit_type) > 0);
            return true;
        }
        e += 1;
    }
    false
}

/// The worth with what the army's composition adds, at least one. A share that is too large does
/// not count against units that capture while the game is young.
pub open spec fn composed_score(
    score: u32,
    phase: GamePhase,
    stats: UnitStats,
    gap: CompositionGap,
) -> u32 {
    let signed = if score > i32::MAX {
        score - 0x1_0000_0000
    } else {
        score as int
    };
    let end = match gap {
        CompositionGap::Short(more) => signed + more,
        CompositionGap::Balanced => signed,
        CompositionGap::Excess => if phase == GamePhase::Expansion && stats.can_capture {
            signed
        } else {
            signed - 1000
        },
    };
    if end < 1 {
        1
    } else {
        end as u32
    }
}

fn compose_score(score: u32, phase: GamePhase, stats: &UnitStats, gap: CompositionGap) -> (r: u32)
    ensures
        r == composed_score(score, phase, *stats, gap),
{
    let signed: i64 = if score > 0x7fff_ffff {
        score as i64 - 0x1_0000_0000
    } else {
        score as i64
    };
    let end: i64 = match gap {
        CompositionGap::Short(more) => signed + more as i64,
        CompositionGap::Balanced => signed,
        CompositionGap::Excess => if phase == GamePhase::Expansion && stats.can_capture {
            signed
        } else {
            signed - 1000
        },
    };
    if end < 1 {
        1
    } else {
        end as u32
    }
}

/// All that the worth of a unit depends on besides the unit itself.
pub struct ScoreScene<'a> {
    pub map: &'a GameMap,
    pub registry: &'a MasterDataRegistry,
    pub chart: &'a DamageChart,
    pub strategy: &'a ProductionStrategy,
    pub demands: ProductionDemands,
    pub enemies: &'a Vec<(GridPosition, UnitStats)>,
    pub empty_transports: &'a Vec<(GridPosition, UnitStats)>,
}

/// The worth of a unit before the army's composition counts.
pub open spec fn field_score(
    scene: ScoreScene,
    unit_type: UnitType,
    stats: UnitStats,
    position: GridPosition,
    produced_at: Terrain,
    sea_slots: (u32, u32),
    terms: ScoreTerms,
    is_v3: bool,
) -> u32 {
    let strategy = *scene.strategy;
    let way = approach(
        *scene.map,
        *scene.registry,
        scene.empty_transports@,
        strategy,
        stats,
        position,
        strategy.priority_targets.len() as int,
    );
    let captured = capture_score(
        base_score(strategy, way),
        strategy.phase,
        scene.demands,
        stats,
        way.turns,
    );
    let carried = if weighed_as_transport(strategy, stats, sea_slots, is_v3) {
        transport_score(captured, strategy, scene.demands, stats, terms)
    } else {
        captured
    };
    let harboured = port_score(carried, stats, produced_at);
    let matched = if is_v3 {
        shifted(harboured, counter_points(terms.counter, strategy.phase))
    } else {
        matchups_score(
            harboured,
            *scene.chart,
            unit_type,
            scene.enemies@,
            scene.enemies.len() as int,
        )
    };
    let denied = interceptions(
        matched,
        *scene.map,
        *scene.chart,
        unit_type,
        stats,
        position,
        strategy,
        scene.enemies@,
        strategy.priority_targets.len() as int,
    );
    phase_score(denied, strategy.phase, stats).saturating_add(terms.air_defense)
}

/// The worth of a unit. Under the third rule set what only fights and harms no enemy is worth
/// next to nothing.
pub open spec fn unit_score(
    scene: ScoreScene,
    unit_type: UnitType,
    stats: UnitStats,
    position: GridPosition,
    produced_at: Terrain,
    sea_slots: (u32, u32),
    terms: ScoreTerms,
    is_v3: bool,
) -> u32 {
    if is_v3 && scene.enemies.len() > 0 && only_fights(stats) && !harms_any(
        *scene.chart,
        unit_type,
        scene.enemies@,
    ) {
        1
    } else {
        let score = field_score(
            scene,
            unit_type,
            stats,
            position,
            produced_at,
            sea_slots,
            terms,
            is_v3,
        );
        let costly = if only_fights(stats) {
            score.saturating_add(stats.cost / 10)
        } else {
            score
        };
        composed_score(costly, scene.strategy.phase, stats, terms.composition)
    }
}

/// The worth of a unit that could be built at the position now.
pub fn calculate_unit_score_at(
    scene: &ScoreScene,
    unit_type: UnitType,
    stats: &UnitStats,
    position: GridPosition,
    produced_at: Terrain,
    sea_slots: (u32, u32),
    terms: &ScoreTerms,
    is_v3: bool,
) -> (r: u32)
    ensures
        r == unit_score(
            *scene,
            unit_type,
            *stats,
            position,
            produced_at,
            sea_slots,
            *terms,
            is_v3,
        ),
{
    let strategy = scene.strategy;
    let fights: bool = !stats.can_capture && stats.max_cargo == 0 && !stats.can_supply;
    if is_v3 && scene.enemies.len() > 0 && fights && !finds_target(
        scene.chart,
        unit_type,
        scene.enemies,
    ) {
        return 1;
    }
    let way = find_approach(
        scene.map,
        scene.registry,
        scene.empty_transports,
        strategy,
        stats,
        position,
    );
    let mut score: u32 = if strategy.priority_targets.len() == 0 {
        100
    } else if way.base > way.turns * 40 + 1 {
        way.base - way.turns * 40
    } else {
        1
    };
    score = add_capture_score(score, strategy.phase, scene.demands, stats, way.turns);
    let carries: bool = if is_v3 {
        (sea_slots.0 > 0 || sea_slots.1 > 0) && strategy.offensive_targets.len() > 0
    } else {
        stats.max_cargo > 0 && strategy.priority_targets.len() > 0
    };
    if carries && strategy.transport_candidate_count > 0 {
        score = add_transport_score(score, strategy, scene.demands, stats, terms);
    }
    if produced_at == Terrain::Port && stats.movement_type == MovementType::Ship {
        score = score.saturating_add(3000);
        if stats.max_range > 1 {
            score = score.saturating_add(2000);
        }
    }
    if is_v3 {
        score = add_counter_points(score, terms.counter, strategy.phase);
    } else {
        score = add_matchups(score, scene.chart, unit_type, scene.enemies);
    }
    score =
    add_interceptions(
        score,
        scene.map,
        scene.chart,
        unit_type,
        stats,
        position,
        strategy,
        scene.enemies,
    );
    score = add_phase_score(score, strategy.phase, stats).saturating_add(terms.air_defense);
    if fights {
        score = score.saturating_add(stats.cost / 10);
    }
    compose_score(score, strategy.phase, stats, terms.composition)
}

/// Every unit is worth something.
pub proof fn law_score_is_positive(
    scene: ScoreScene,
    unit_type: UnitType,
    stats: UnitStats,
    position: GridPosition,
    produced_at: Terrain,
    sea_slots: (u32, u32),
    terms: ScoreTerms,
    is_v3: bool,
)
    ensures
        unit_score(scene, unit_type, stats, position, produced_at, sea_slots, terms, is_v3) >= 1,
{
}

/// Under the third rule set a unit that only fights and harms no enemy on the board is worth no
/// more than any other unit.
pub proof fn law_dead_weight_is_worth_least(
    scene: ScoreScene,
    idle: (UnitType, UnitStats),
    other: (UnitType, UnitStats),
    position: GridPosition,
    produced_at: Terrain,
    idle_slots: (u32, u32),
    other_slots: (u32, u32),
    idle_terms: ScoreTerms,
    other_terms: ScoreTerms,
)
    requires
        scene.enemies.len() > 0,
        only_fights(idle.1),
        !harms_any(*scene.chart, idle.0, scene.enemies@),
    ensures
        unit_score(scene, idle.0, idle.1, position, produced_at, idle_slots, idle_terms, true)
            <= unit_score(
            scene,
            other.0,
            other.1,
            position,
            produced_at,
            other_slots,
            other_terms,
            true,
        ),
{
    law_score_is_positive(
        scene,
        other.0,
        other.1,
        position,
        produced_at,
        other_slots,
        other_terms,
        true,
    );
}

} // verus!
