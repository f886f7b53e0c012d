//! What holds of the worth of units.
use crate::damage::DamageChart;
use crate::grid::{manhattan, GameMap, GridPosition, Terrain};
use crate::master_data::MasterDataRegistry;
use crate::unit_score::{
    approach, base_score, capture_score, composed_score, counter_points, halved, interception,
    interceptions, matchups_score, phase_score, port_score, property_value, ride_turns, sails,
    ship_reaches, single_step, target_interceptions, target_turns, transport_demand,
    transport_score, travel_turns, unit_score, Approach, CompositionGap, GamePhase,
    ProductionDemands, ProductionStrategy, ScoreScene, ScoreTerms,
};
use crate::units::{MovementType, UnitStats, UnitType};
use vstd::arithmetic::div_mod::{
    lemma_div_pos_is_pos, lemma_fundamental_div_mod, lemma_mod_bound,
};
use vstd::prelude::*;

verus! {

/// The value, or the nearest that a score can be.
pub open spec fn kept(v: int) -> int {
    if v < 0 {
        0
    } else if v > u32::MAX {
        u32::MAX as int
    } else {
        v
    }
}

/// A way takes the fewest turns whose movement covers it.
pub proof fn law_turns_cover_the_way(distance: nat, cost: u32, movement: u32)
    ensures
        ({
            let t = travel_turns(distance, cost, movement);
            &&& movement > 0 ==> t * movement >= distance * cost && (t > 0 ==> (t - 1) * movement
                < distance * cost)
            &&& movement == 0 && distance * cost > 0 ==> t + 1 == distance * cost
            &&& movement == 0 && distance * cost == 0 ==> t == 0
        }),
{
    let way = distance * cost;
    assert(way >= 0) by (nonlinear_arith)
        requires
            way == distance * cost,
            distance >= 0,
            cost >= 0,
    ;
    assert(distance * cost as nat == way);
    let t = travel_turns(distance, cost, movement);
    if movement > 0 {
        let reach = way + movement - 1;
        let m = movement as int;
        lemma_fundamental_div_mod(reach, m);
        lemma_mod_bound(reach, m);
        lemma_div_pos_is_pos(reach, m);
        assert(t == reach / m);
        assert(m * t == t * m) by (nonlinear_arith);
        assert((t - 1) * m == t * m - m) by (nonlinear_arith);
    }
}

/// The transport stands where the unit is built and takes its type.
pub open spec fn is_ride(
    ride: (GridPosition, UnitStats),
    position: GridPosition,
    unit_type: UnitType,
) -> bool {
    ride.0 == position && exists|i: int|
        0 <= i < ride.1.loadable_unit_types.len() && ride.1.loadable_unit_types@[i] == unit_type
}

/// What a step on the terrain costs by the table, one where it says nothing.
pub open spec fn price_of_step(
    registry: MasterDataRegistry,
    movement_type: MovementType,
    terrain: Terrain,
) -> u32 {
    let listed = registry.listed_cost(movement_type, terrain);
    if listed is Some {
        listed->0
    } else {
        1
    }
}

/// The turns that a ride takes over the distance.
pub open spec fn time_of_ride(
    registry: MasterDataRegistry,
    ride: (GridPosition, UnitStats),
    distance: nat,
) -> nat {
    travel_turns(
        distance,
        price_of_step(registry, ride.1.movement_type, Terrain::Plains),
        ride.1.max_movement,
    )
}

/// The turns are the fewest that the unit takes by itself or on one of the first rides.
pub open spec fn is_quickest(
    registry: MasterDataRegistry,
    transports: Seq<(GridPosition, UnitStats)>,
    position: GridPosition,
    unit_type: UnitType,
    distance: nat,
    own: nat,
    n: int,
    t: nat,
) -> bool {
    &&& t <= own
    &&& forall|k: int|
        0 <= k < n && is_ride(#[trigger] transports[k], position, unit_type) ==> t <= time_of_ride(
            registry,
            transports[k],
            distance,
        )
    &&& t == own || exists|k: int|
        0 <= k < n && is_ride(#[trigger] transports[k], position, unit_type) && t == time_of_ride(
            registry,
            transports[k],
            distance,
        )
}

proof fn lemma_quickest(
    registry: MasterDataRegistry,
    transports: Seq<(GridPosition, UnitStats)>,
    position: GridPosition,
    unit_type: UnitType,
    distance: nat,
    own: nat,
    n: int,
)
    requires
        0 <= n <= transports.len(),
    ensures
        is_quickest(
            registry,
            transports,
            position,
            unit_type,
            distance,
            own,
            n,
            ride_turns(registry, transports, position, unit_type, distance, own, n),
        ),
    decreases n,
{
    if n > 0 {
        lemma_quickest(registry, transports, position, unit_type, distance, own, n - 1);
        let best = ride_turns(registry, transports, position, unit_type, distance, own, n - 1);
        let last = transports[n - 1];
        assert(is_ride(last, position, unit_type) <==> last.0 == position
            && last.1.loadable_unit_types@.contains(unit_type));
        if best != own {
            let k = choose|k: int|
                0 <= k < n - 1 && is_ride(#[trigger] transports[k], position, unit_type) && best
                    == time_of_ride(registry, transports[k], distance);
            assert(is_ride(transports[k], position, unit_type));
        }
    }
}

/// A ship gets onto the tile.
pub open spec fn floats_at(map: GameMap, registry: MasterDataRegistry, p: GridPosition) -> bool {
    let terrain = map.terrain_at(p);
    terrain is Some && registry.entry_cost(MovementType::Ship, terrain->0) is Some
}

/// A ship gets onto the tile or onto one that touches it.
pub open spec fn is_coast(map: GameMap, registry: MasterDataRegistry, p: GridPosition) -> bool {
    floats_at(map, registry, p) || exists|q: GridPosition| #[trigger]
        map.touches(p, q) && floats_at(map, registry, q)
}

/// The length of the way to the target. It is longer for a ship that does not get there: most for
/// one that neither shoots far nor carries.
pub open spec fn way_to(
    map: GameMap,
    registry: MasterDataRegistry,
    stats: UnitStats,
    position: GridPosition,
    target: GridPosition,
) -> nat {
    let farther = if stats.movement_type != MovementType::Ship || is_coast(map, registry, target) {
        0nat
    } else if stats.max_range > 1 {
        10
    } else if stats.max_cargo > 0 {
        5
    } else {
        20
    };
    manhattan(position, target) + farther
}

/// The turns that the unit takes by itself over the distance: a ship at sea, others over plains.
pub open spec fn own_time(registry: MasterDataRegistry, stats: UnitStats, distance: nat) -> nat {
    let ground = if stats.movement_type == MovementType::Ship {
        Terrain::Sea
    } else {
        Terrain::Plains
    };
    travel_turns(
        distance,
        price_of_step(registry, stats.movement_type, ground),
        stats.max_movement,
    )
}

/// The time to a target. Land and air units take the quickest of their own way and the rides. A
/// ship counts two turns less, though at least one, where it gets to the target or beside it.
pub proof fn law_target_is_reached_by_the_quickest_way(
    map: GameMap,
    registry: MasterDataRegistry,
    transports: Seq<(GridPosition, UnitStats)>,
    stats: UnitStats,
    position: GridPosition,
    target: GridPosition,
)
    ensures
        ({
            let r = target_turns(map, registry, transports, stats, position, target);
            let lands = stats.movement_type == MovementType::Ship && is_coast(
                map,
                registry,
                target,
            );
            exists|t: nat|
                {
                    &&& #[trigger] is_quickest(
                        registry,
                        transports,
                        position,
                        stats.unit_type,
                        way_to(map, registry, stats, position, target),
                        own_time(
                            registry,
                            stats,
                            way_to(map, registry, stats, position, target),
                        ),
                        transports.len() as int,
                        t,
                    )
                    &&& lands ==> (r == 1 && t <= 3 || r + 2 == t && t > 3)
                    &&& !lands ==> r == t
                }
        }),
{
    let near = map.adjacent(target);
    map.lemma_adjacent(target);
    assert(is_coast(map, registry, target) == ship_reaches(map, registry, target)) by {
        if !floats_at(map, registry, target) {
            if is_coast(map, registry, target) {
                let q = choose|q: GridPosition| #[trigger]
                    map.touches(target, q) && floats_at(map, registry, q);
                assert(near.contains(q));
                let i = choose|i: int| 0 <= i < near.len() && near[i] == q;
                assert(sails(map, registry, near[i]));
            }
            if ship_reaches(map, registry, target) {
                let i = choose|i: int|
                    0 <= i < near.len() && sails(map, registry, #[trigger] near[i]);
                assert(near.contains(near[i]));
                assert(map.touches(target, near[i]));
            }
        }
    }
    let distance = way_to(map, registry, stats, position, target);
    lemma_quickest(
        registry,
        transports,
        position,
        stats.unit_type,
        distance,
        own_time(registry, stats, distance),
        transports.len() as int,
    );
}

/// The unit has business at the target: it captures, or the target is no property that nobody owns.
pub open spec fn has_business_at(
    strategy: ProductionStrategy,
    stats: UnitStats,
    target: GridPosition,
) -> bool {
    stats.can_capture || !exists|i: int|
        0 <= i < strategy.unowned_properties.len() && strategy.unowned_properties@[i] == target
}

/// Of the targets that the unit has business at the nearest counts, if it is nearer than
/// ninety-nine turns. A ship that neither shoots far nor carries is worth a quarter for each of
/// them that it does not get to; any other unit keeps its full worth.
pub proof fn law_nearest_target_counts(
    map: GameMap,
    registry: MasterDataRegistry,
    transports: Seq<(GridPosition, UnitStats)>,
    strategy: ProductionStrategy,
    stats: UnitStats,
    position: GridPosition,
    n: int,
)
    requires
        0 <= n <= strategy.priority_targets.len(),
    ensures
        ({
            let way = approach(map, registry, transports, strategy, stats, position, n);
            let targets = strategy.priority_targets@;
            &&& way.turns <= 99
            &&& forall|i: int|
                0 <= i < n && has_business_at(strategy, stats, #[trigger] targets[i]) ==> way.turns
                    <= target_turns(map, registry, transports, stats, position, targets[i])
            &&& way.turns == 99 || exists|i: int|
                0 <= i < n && has_business_at(strategy, stats, #[trigger] targets[i]) && way.turns
                    == target_turns(map, registry, transports, stats, position, targets[i])
            &&& way.base == 2000 || way.base <= 500
            &&& way.base == 2000 <==> !(stats.max_range <= 1 && stats.max_cargo == 0 && exists|
                i: int,
            |
                0 <= i < n && has_business_at(strategy, stats, #[trigger] targets[i])
                    && stats.movement_type == MovementType::Ship && !ship_reaches(
                    map,
                    registry,
                    targets[i],
                ))
        }),
    decreases n,
{
    let targets = strategy.priority_targets@;
    if n > 0 {
        law_nearest_target_counts(map, registry, transports, strategy, stats, position, n - 1);
        let best = approach(map, registry, transports, strategy, stats, position, n - 1);
        let last = targets[n - 1];
        assert(has_business_at(strategy, stats, last) <==> !(
        strategy.unowned_properties@.contains(last) && !stats.can_capture));
        if best.turns != 99 {
            let i = choose|i: int|
                0 <= i < n - 1 && has_business_at(strategy, stats, #[trigger] targets[i])
                    && best.turns == target_turns(
                    map,
                    registry,
                    transports,
                    stats,
                    position,
                    targets[i],
                );
            assert(has_business_at(strategy, stats, targets[i]));
        }
        if best.base != 2000 {
            let i = choose|i: int|
                0 <= i < n - 1 && has_business_at(strategy, stats, #[trigger] targets[i])
                    && stats.movement_type == MovementType::Ship && !ship_reaches(
                    map,
                    registry,
                    targets[i],
                );
            assert(has_business_at(strategy, stats, targets[i]));
        }
    }
}

/// Each turn that a unit is later makes it worth forty less, down to one. Without a target every
/// unit is worth a hundred to begin with.
pub proof fn law_later_is_worth_less(strategy: ProductionStrategy, way: Approach, turns: u32)
    requires
        turns <= way.turns,
    ensures
        ({
            let late = base_score(strategy, way);
            let soon = base_score(strategy, Approach { turns, ..way });
            let at_once = base_score(strategy, Approach { turns: 0, ..way });
            &&& strategy.priority_targets.len() == 0 ==> late == 100 && soon == 100
            &&& strategy.priority_targets.len() > 0 ==> {
                &&& late >= 1
                &&& soon >= late
                &&& late > 1 ==> soon == late + 40 * (way.turns - turns)
                &&& late == 1 ==> soon <= 1 + 40 * (way.turns - turns)
                &&& way.base > 0 ==> at_once == way.base
            }
        }),
{
}

/// What capturing is worth. To a unit that does not capture it is nothing. While captors are
/// lacking each that is lacking adds twenty-five hundred, and a target within two turns two
/// thousand. When none is lacking a captor is worth a thousand less early on and two thousand less
/// later.
pub proof fn law_captors_are_worth_what_is_lacking(
    score: u32,
    phase: GamePhase,
    demands: ProductionDemands,
    stats: UnitStats,
    turns: u32,
)
    ensures
        ({
            let r = capture_score(score, phase, demands, stats, turns);
            let near = if turns < 3 {
                2000int
            } else {
                0
            };
            &&& !stats.can_capture ==> r == score
            &&& stats.can_capture && demands.capture > 0 ==> r == kept(
                score + 2500 * demands.capture + near,
            )
            &&& stats.can_capture && demands.capture == 0 && phase == GamePhase::Expansion ==> r
                == kept(score - 1000)
            &&& stats.can_capture && demands.capture == 0 && phase != GamePhase::Expansion ==> r
                == kept(score - 2000)
        }),
{
}

/// Half a score is within half a step of the numbers of single precision from the exact half, and
/// below the first of those steps it is the exact half, rounded down.
#[verifier::rlimit(50)]
pub proof fn law_half_is_half(score: u32)
    ensures
        score < 0x0100_0000 ==> 2 * halved(score) <= score < 2 * halved(score) + 2,
        score >= 0x0100_0000 ==> ({
            let step = single_step(score);
            &&& -(step as int) <= 2 * (2 * halved(score) - score) <= step
            &&& step * 0x0080_0000 <= score < step * 0x0100_0000
        }),
{
    if score >= 0x0100_0000 {
        let step = single_step(score);
        let whole = score / step;
        let rest = score % step;
        lemma_fundamental_div_mod(score as int, step as int);
        assert(score == step * whole + rest);
        let rounded = if rest * 2 > step || (rest * 2 == step && whole % 2 == 1) {
            whole + 1
        } else {
            whole as int
        };
        let half = (step / 2) as int;
        assert(step == 2 * half);
        assert(2 * (rounded * half) == rounded * step) by (nonlinear_arith)
            requires
                step == 2 * half,
        ;
        assert(rounded * step == whole * step || rounded * step == whole * step + step)
            by (nonlinear_arith)
            requires
                rounded == whole || rounded == whole + 1,
        ;
        assert(whole * step == step * whole) by (nonlinear_arith);
        assert(0 <= rounded * half <= u32::MAX);
    }
}

/// What carrying is worth. The time saved and the invasion count in full; each lacking place adds
/// fifteen hundred, and where none is lacking a transport is worth three thousand less. A second
/// transport counts half, and from the third on two thousand less still.
#[verifier::rlimit(50)]
pub proof fn law_transports_are_worth_what_is_lacking(
    score: u32,
    strategy: ProductionStrategy,
    demands: ProductionDemands,
    stats: UnitStats,
    terms: ScoreTerms,
)
    ensures
        ({
            let r = transport_score(score, strategy, demands, stats, terms);
            let gained = kept(
                kept(score + terms.transport_utility) + terms.invasion_value,
            );
            let takes = |u: UnitType|
                exists|i: int|
                    0 <= i < stats.loadable_unit_types.len() && stats.loadable_unit_types@[i] == u;
            let light = demands.light_transport as int;
            let heavy = demands.heavy_transport as int;
            let lacking = if !takes(UnitType::Tank) {
                light
            } else if takes(UnitType::Infantry) && light > heavy {
                light
            } else {
                heavy
            };
            let wanted = if lacking > 0 {
                kept(gained + 1500 * lacking)
            } else {
                kept(gained - 3000)
            };
            &&& strategy.existing_transport_count == 0 ==> r == wanted
            &&& strategy.existing_transport_count == 1 ==> r == halved(wanted as u32)
            &&& strategy.existing_transport_count > 1 ==> r == kept(halved(wanted as u32) - 2000)
        }),
{
    assert((exists|i: int|
        0 <= i < stats.loadable_unit_types.len() && stats.loadable_unit_types@[i]
            == UnitType::Tank) <==> stats.loadable_unit_types@.contains(UnitType::Tank));
    assert((exists|i: int|
        0 <= i < stats.loadable_unit_types.len() && stats.loadable_unit_types@[i]
            == UnitType::Infantry) <==> stats.loadable_unit_types@.contains(UnitType::Infantry));
    let demand = transport_demand(demands, stats);
    assert(demand * 1500 == 1500 * demand);
}

/// A port makes ships worth three thousand more, far-shooting ones five thousand. Nothing else
/// gains from it, nor a ship from any other building.
pub proof fn law_ports_are_for_ships(score: u32, stats: UnitStats, produced_at: Terrain)
    ensures
        ({
            let r = port_score(score, stats, produced_at);
            let ship = stats.movement_type == MovementType::Ship && produced_at == Terrain::Port;
            &&& !ship ==> r == score
            &&& ship && stats.max_range <= 1 ==> r == kept(score + 3000)
            &&& ship && stats.max_range > 1 ==> r == kept(score + 5000)
        }),
{
}

/// A unit that trades better is never worth less. The gain is at most eight thousand and the loss
/// at most four, in between threefold, and early on a quarter of that.
#[verifier::rlimit(50)]
pub proof fn law_better_trade_is_worth_more(low: i32, high: i32, phase: GamePhase)
    requires
        low <= high,
    ensures
        counter_points(low, phase) <= counter_points(high, phase),
        phase != GamePhase::Expansion ==> -4000 <= counter_points(low, phase) <= 8000,
        phase != GamePhase::Expansion && -1333 <= low <= 2666 ==> counter_points(low, phase) == 3
            * low,
        phase == GamePhase::Expansion ==> {
            let late = counter_points(low, GamePhase::Contested);
            let early = counter_points(low, phase);
            &&& late >= 0 ==> 4 * early <= late < 4 * early + 4
            &&& late < 0 ==> 4 * early - 4 < late <= 4 * early
        },
        phase != GamePhase::Expansion && low > 2666 ==> counter_points(low, phase) == 8000,
        phase != GamePhase::Expansion && low < -1333 ==> counter_points(low, phase) == -4000,
{
}

/// Each enemy adds what the unit's weapons do to it: five hundred where the first does at least
/// half, a thousand more where it does four fifths, and three hundred where the second does three
/// tenths. No enemy counts for nothing else.
pub proof fn law_hard_hits_are_worth_more(
    score: u32,
    chart: DamageChart,
    unit_type: UnitType,
    enemies: Seq<(GridPosition, UnitStats)>,
    more: (GridPosition, UnitStats),
)
    ensures
        ({
            let n = enemies.len() as int;
            let before = matchups_score(score, chart, unit_type, enemies, n);
            let after = matchups_score(score, chart, unit_type, enemies.push(more), n + 1);
            let first = chart.first(unit_type, more.1.unit_type);
            let second = chart.second(unit_type, more.1.unit_type);
            let by_first = if first is None || first->0 < 50 {
                0int
            } else if first->0 < 80 {
                500
            } else {
                1500
            };
            let by_second = if second is None || second->0 < 30 {
                0int
            } else {
                300
            };
            &&& matchups_score(score, chart, unit_type, enemies, 0) == score
            &&& after == kept(before + by_first + by_second)
        }),
{
    lemma_matchups_prefix(score, chart, unit_type, enemies, more, enemies.len() as int);
}

proof fn lemma_matchups_prefix(
    score: u32,
    chart: DamageChart,
    unit_type: UnitType,
    enemies: Seq<(GridPosition, UnitStats)>,
    more: (GridPosition, UnitStats),
    n: int,
)
    requires
        0 <= n <= enemies.len(),
    ensures
        matchups_score(score, chart, unit_type, enemies.push(more), n) == matchups_score(
            score,
            chart,
            unit_type,
            enemies,
            n,
        ),
    decreases n,
{
    if n > 0 {
        lemma_matchups_prefix(score, chart, unit_type, enemies, more, n - 1);
    }
}

/// Keeping an enemy from a target is worth something only against captors that are there no later
/// than the unit and that its first weapon harms. It is worth the target's value times the damage
/// over ten times the turns the unit takes, rounded down.
#[verifier::rlimit(50)]
pub proof fn law_only_early_captors_are_kept_off(
    map: GameMap,
    chart: DamageChart,
    unit_type: UnitType,
    stats: UnitStats,
    position: GridPosition,
    target: GridPosition,
    enemy: (GridPosition, UnitStats),
)
    ensures
        ({
            let r = interception(map, chart, unit_type, stats, position, target, enemy);
            let theirs = travel_turns(manhattan(enemy.0, target), 1, enemy.1.max_movement);
            let ours = travel_turns(manhattan(position, target), 1, stats.max_movement);
            let terrain = map.terrain_at(target);
            let value = if terrain == Some(Terrain::Capital) {
                5000int
            } else if terrain == Some(Terrain::Factory) {
                3000
            } else if terrain == Some(Terrain::Port) || terrain == Some(Terrain::Airport) {
                2000
            } else {
                1000
            };
            let hit = chart.first(unit_type, enemy.1.unit_type);
            let turns = if ours == 0 {
                1int
            } else {
                ours as int
            };
            &&& !enemy.1.can_capture || ours < theirs || hit is None ==> r == 0
            &&& enemy.1.can_capture && theirs <= ours && hit is Some ==> {
                &&& r * (turns * 10) <= value * hit->0
                &&& r < u32::MAX ==> value * hit->0 < (r + 1) * (turns * 10)
            }
        }),
{
    let theirs = travel_turns(manhattan(enemy.0, target), 1, enemy.1.max_movement);
    let ours = travel_turns(manhattan(position, target), 1, stats.max_movement);
    let hit = chart.first(unit_type, enemy.1.unit_type);
    let damage = if hit is Some {
        hit->0 as int
    } else {
        0
    };
    let value = property_value(map, target) as int;
    let wait = if ours > 1 {
        ours as int
    } else {
        1
    };
    let all = value * damage;
    let by = wait * 10;
    assert(all >= 0) by (nonlinear_arith)
        requires
            all == value * damage,
            value >= 0,
            damage >= 0,
    ;
    lemma_fundamental_div_mod(all, by);
    lemma_mod_bound(all, by);
    lemma_div_pos_is_pos(all, by);
    let q = all / by;
    assert(by * q == q * by) by (nonlinear_arith);
    assert((q + 1) * by == q * by + by) by (nonlinear_arith);
    if damage == 0 {
        assert(all == 0) by (nonlinear_arith)
            requires
                all == value * damage,
                damage == 0,
        ;
        assert(q == 0) by (nonlinear_arith)
            requires
                q * by <= 0,
                by > 0,
                q >= 0,
        ;
    }
    if q > u32::MAX {
        assert(u32::MAX * by <= q * by) by (nonlinear_arith)
            requires
                q > u32::MAX,
                by > 0,
        ;
    }
}

/// One more enemy adds what keeping it from the target is worth.
pub proof fn law_enemies_are_kept_off_one_by_one(
    score: u32,
    map: GameMap,
    chart: DamageChart,
    unit_type: UnitType,
    stats: UnitStats,
    position: GridPosition,
    target: GridPosition,
    enemies: Seq<(GridPosition, UnitStats)>,
    more: (GridPosition, UnitStats),
)
    ensures
        ({
            let n = enemies.len() as int;
            let all = enemies.push(more);
            &&& target_interceptions(
                score,
                map,
                chart,
                unit_type,
                stats,
                position,
                target,
                enemies,
                0,
            ) == score
            &&& target_interceptions(
                score,
                map,
                chart,
                unit_type,
                stats,
                position,
                target,
                all,
                n + 1,
            ) == kept(
                target_interceptions(
                    score,
                    map,
                    chart,
                    unit_type,
                    stats,
                    position,
                    target,
                    enemies,
                    n,
                ) + interception(map, chart, unit_type, stats, position, target, more),
            )
        }),
{
    lemma_target_prefix(
        score,
        map,
        chart,
        unit_type,
        stats,
        position,
        target,
        enemies,
        more,
        enemies.len() as int,
    );
}

proof fn lemma_target_prefix(
    score: u32,
    map: GameMap,
    chart: DamageChart,
    unit_type: UnitType,
    stats: UnitStats,
    position: GridPosition,
    target: GridPosition,
    enemies: Seq<(GridPosition, UnitStats)>,
    more: (GridPosition, UnitStats),
    n: int,
)
    requires
        0 <= n <= enemies.len(),
    ensures
        target_interceptions(
            score,
            map,
            chart,
            unit_type,
            stats,
            position,
            target,
            enemies.push(more),
            n,
        ) == target_interceptions(
            score,
            map,
            chart,
            unit_type,
            stats,
            position,
            target,
            enemies,
            n,
        ),
    decreases n,
{
    if n > 0 {
        lemma_target_prefix(
            score,
            map,
            chart,
            unit_type,
            stats,
            position,
            target,
            enemies,
            more,
            n - 1,
        );
    }
}

/// Only targets that nobody owns are kept from the enemy: where all targets are owned, or there is
/// no enemy, the worth stays; it never falls; and it rises by what the last target is worth exactly
/// if nobody owns that.
pub proof fn law_only_unowned_targets_are_kept(
    score: u32,
    map: GameMap,
    chart: DamageChart,
    unit_type: UnitType,
    stats: UnitStats,
    position: GridPosition,
    strategy: ProductionStrategy,
    enemies: Seq<(GridPosition, UnitStats)>,
    n: int,
)
    requires
        0 <= n <= strategy.priority_targets.len(),
    ensures
        ({
            let r = interceptions(
                score,
                map,
                chart,
                unit_type,
                stats,
                position,
                strategy,
                enemies,
                n,
            );
            let is_free = |p: GridPosition|
                exists|j: int|
                    0 <= j < strategy.unowned_properties.len()
                        && strategy.unowned_properties@[j] == p;
            &&& r >= score
            &&& enemies.len() == 0 ==> r == score
            &&& (forall|i: int|
                0 <= i < n ==> !is_free(#[trigger] strategy.priority_targets@[i])) ==> r == score
            &&& n > 0 ==> {
                let before = interceptions(
                    score,
                    map,
                    chart,
                    unit_type,
                    stats,
                    position,
                    strategy,
                    enemies,
                    n - 1,
                );
                let last = strategy.priority_targets@[n - 1];
                &&& !is_free(last) ==> r == before
                &&& is_free(last) ==> r == target_interceptions(
                    before,
                    map,
                    chart,
                    unit_type,
                    stats,
                    position,
                    last,
                    enemies,
                    enemies.len() as int,
                )
            }
        }),
    decreases n,
{
    if n > 0 {
        law_only_unowned_targets_are_kept(
            score,
            map,
            chart,
            unit_type,
            stats,
            position,
            strategy,
            enemies,
            n - 1,
        );
        let before = interceptions(
            score,
            map,
            chart,
            unit_type,
            stats,
            position,
            strategy,
            enemies,
            n - 1,
        );
        let last = strategy.priority_targets@[n - 1];
        assert((exists|j: int|
            0 <= j < strategy.unowned_properties.len() && strategy.unowned_properties@[j] == last)
            <==> strategy.unowned_properties@.contains(last));
        lemma_target_grows(
            before,
            map,
            chart,
            unit_type,
            stats,
            position,
            last,
            enemies,
            enemies.len() as int,
        );
    }
}

proof fn lemma_target_grows(
    score: u32,
    map: GameMap,
    chart: DamageChart,
    unit_type: UnitType,
    stats: UnitStats,
    position: GridPosition,
    target: GridPosition,
    enemies: Seq<(GridPosition, UnitStats)>,
    n: int,
)
    ensures
        target_interceptions(
            score,
            map,
            chart,
            unit_type,
            stats,
            position,
            target,
            enemies,
            n,
        ) >= score,
    decreases n,
{
    if n > 0 {
        lemma_target_grows(
            score,
            map,
            chart,
            unit_type,
            stats,
            position,
            target,
            enemies,
            n - 1,
        );
    }
}

/// Early on the fast are worth five hundred more; in defence those that shoot only from afar
/// fifteen hundred and the cheap five hundred; otherwise tanks a thousand.
pub proof fn law_each_phase_has_its_units(score: u32, phase: GamePhase, stats: UnitStats)
    ensures
        ({
            let r = phase_score(score, phase, stats);
            let tank = stats.unit_type == UnitType::Tank || stats.unit_type == UnitType::MdTank
                || stats.unit_type == UnitType::TankZ;
            let far = if stats.min_range >= 2 {
                1500int
            } else {
                0
            };
            let cheap = if stats.cost > 3000 {
                0int
            } else {
                500
            };
            &&& phase == GamePhase::Expansion ==> r == (if stats.max_movement > 5 {
                kept(score + 500)
            } else {
                score as int
            })
            &&& phase == GamePhase::Defense ==> r == kept(score + far + cheap)
            &&& phase == GamePhase::Contested || phase == GamePhase::Assault ==> r == (if tank {
                kept(score + 1000)
            } else {
                score as int
            })
        }),
{
}

/// What the army lacks makes a unit worth more, what it has too much of a thousand less, except a
/// captor early on. No unit is worth less than one, and a balanced army changes nothing.
pub proof fn law_army_is_kept_in_balance(score: u32, phase: GamePhase, stats: UnitStats, more: i32)
    requires
        1 <= score <= i32::MAX,
    ensures
        ({
            let even = composed_score(score, phase, stats, CompositionGap::Balanced);
            let short = composed_score(score, phase, stats, CompositionGap::Short(more));
            let excess = composed_score(score, phase, stats, CompositionGap::Excess);
            let spared = stats.can_capture && phase == GamePhase::Expansion;
            &&& even == score
            &&& score + more >= 1 ==> short == score + more
            &&& score + more < 1 ==> short == 1
            &&& spared ==> excess == score
            &&& !spared && score > 1000 ==> excess == score - 1000
            &&& !spared && score <= 1000 ==> excess == 1
        }),
{
}

/// What a unit is worth is made up of how soon it is wanted where, what it captures, what it
/// carries, where it is built, how it trades, whom it keeps off, what the phase asks for and what
/// it does against aircraft; a unit that only fights also counts a tenth of its price.
#[verifier::rlimit(50)]
pub proof fn law_worth_is_made_up_of_all_parts(
    scene: ScoreScene,
    unit_type: UnitType,
    stats: UnitStats,
    position: GridPosition,
    produced_at: Terrain,
    sea_slots: (u32, u32),
    terms: ScoreTerms,
    is_v3: bool,
)
    ensures
        ({
            let r = unit_score(
                scene,
                unit_type,
                stats,
                position,
                produced_at,
                sea_slots,
                terms,
                is_v3,
            );
            let strategy = *scene.strategy;
            let n = strategy.priority_targets.len() as int;
            let fighter = !(stats.can_capture || stats.max_cargo > 0 || stats.can_supply);
            let useless = is_v3 && fighter && scene.enemies.len() > 0 && forall|e: int|
                0 <= e < scene.enemies.len() ==> scene.chart.best(
                    unit_type,
                    (#[trigger] scene.enemies@[e]).1.unit_type,
                ) == 0;
            let way = approach(
                *scene.map,
                *scene.registry,
                scene.empty_transports@,
                strategy,
                stats,
                position,
                n,
            );
            let a = capture_score(
                base_score(strategy, way),
                strategy.phase,
                scene.demands,
                stats,
                way.turns,
            );
            let carries = strategy.transport_candidate_count > 0 && (if is_v3 {
                sea_slots.0 + sea_slots.1 > 0 && strategy.offensive_targets.len() > 0
            } else {
                stats.max_cargo > 0 && strategy.priority_targets.len() > 0
            });
            let b = if carries {
                transport_score(a, strategy, scene.demands, stats, terms)
            } else {
                a
            };
            let c = port_score(b, stats, produced_at);
            let d = if is_v3 {
                kept(c + counter_points(terms.counter, strategy.phase)) as u32
            } else {
                matchups_score(
                    c,
                    *scene.chart,
                    unit_type,
                    scene.enemies@,
                    scene.enemies.len() as int,
                )
            };
            let e = interceptions(
                d,
                *scene.map,
                *scene.chart,
                unit_type,
                stats,
                position,
                strategy,
                scene.enemies@,
                n,
            );
            let f = kept(phase_score(e, strategy.phase, stats) + terms.air_defense);
            let g = if fighter {
                kept(f + stats.cost / 10)
            } else {
                f
            };
            &&& useless ==> r == 1
            &&& !useless ==> r == composed_score(
                g as u32,
                strategy.phase,
                stats,
                terms.composition,
            )
        }),
{
}

} // verus!
