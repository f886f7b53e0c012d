//! What holds of every step of a transport mission.
use crate::board::{lemma_row_of, row_of, rows_distinct, Board, BoardRow};
use crate::entity::Entity;
use crate::grid::{closest_within, lemma_closest_within, manhattan, GameMap, GridPosition};
use crate::islands::{Island, IslandId};
use crate::master_data::MasterDataRegistry;
use crate::missions::{
    best_meetup, can_enter, can_meet, closest, closest_landing, docks, drops_at, enterable,
    fewest_turns, first_landings, is_home, is_void, island_approach, island_holding,
    island_numbered, landings, landings_from, lies_beside, meetup_column, meetup_point,
    meetup_tiles, mission_approach, mission_commands, nearest_tile, nearest_to, next_phase,
    own_sites, places_of, quickest, row, AiCommand, Carrier, DropRow, MissionOptions,
    TransportMission, TransportPhase, BEYOND_ALL, TOO_FAR,
};
use crate::order::{lemma_joined, lemma_pushed};
use crate::travel::{TravelTable, Traveller, TurnDistance};
use crate::units::{MovementType, PlayerId, UnitStats};
use vstd::prelude::*;

verus! {

/// Row `i` is the one of the entity, and there is no other.
pub open spec fn is_row(board: Board, i: int, e: Entity) -> bool {
    rows_distinct(board.rows@) && 0 <= i < board.rows.len() && board.rows[i].entity == e
}

proof fn lemma_row(board: Board, i: int, e: Entity)
    requires
        is_row(board, i, e),
    ensures
        row_of(board.rows@, e, 0) == Some(i),
        row(board, e) == Some(board.rows[i]),
{
    lemma_row_of(board.rows@, e, 0);
    if let Some(k) = row_of(board.rows@, e, 0) {
        if k < i {
            assert(board.rows[k].entity != board.rows[i].entity);
        }
    }
}

/// The unit in the row can carry a mission out: it stands somewhere, has stats, fuel and an owner.
/// This is where it stands and how it travels.
pub open spec fn carries(r: BoardRow, c: Carrier) -> bool {
    &&& r.position == Some(c.position)
    &&& r.fuel is Some
    &&& r.faction == Some(c.traveller.player_id)
    &&& r.stats matches Some(stats) && c.traveller.movement_type == stats.movement_type
        && c.traveller.max_movement == stats.max_movement
}

/// Neither takes longer: in turns, and in points within the same number of turns.
pub open spec fn no_longer(a: TurnDistance, b: TurnDistance) -> bool {
    a.turns < b.turns || (a.turns == b.turns && a.used_mp <= b.used_mp)
}

/// The tile is one of those, or the one to start from, and from none of them the goal is sooner
/// reached.
pub open spec fn is_soonest(
    travel: TravelTable,
    traveller: Traveller,
    tiles: Seq<GridPosition>,
    start: GridPosition,
    goal: GridPosition,
    p: GridPosition,
) -> bool {
    let d = travel.turn_distance(traveller, p, goal);
    &&& p == start || tiles.contains(p)
    &&& no_longer(d, travel.turn_distance(traveller, start, goal))
    &&& forall|i: int|
        0 <= i < tiles.len() ==> no_longer(
            d,
            travel.turn_distance(traveller, #[trigger] tiles[i], goal),
        )
}

proof fn lemma_quickest(
    travel: TravelTable,
    traveller: Traveller,
    cands: Seq<GridPosition>,
    start: GridPosition,
    goal: GridPosition,
    n: int,
)
    requires
        0 <= n <= cands.len(),
    ensures
        ({
            let p = quickest(travel, traveller, cands, start, goal, n);
            let d = travel.turn_distance(traveller, p, goal);
            &&& p == start || cands.contains(p)
            &&& no_longer(d, travel.turn_distance(traveller, start, goal))
            &&& forall|i: int|
                0 <= i < n ==> no_longer(
                    d,
                    travel.turn_distance(traveller, #[trigger] cands[i], goal),
                )
        }),
    decreases n,
{
    if n > 0 {
        lemma_quickest(travel, traveller, cands, start, goal, n - 1);
        assert(cands.contains(cands[n - 1]));
    }
}

proof fn lemma_fewest_turns(
    travel: TravelTable,
    traveller: Traveller,
    cands: Seq<GridPosition>,
    start: GridPosition,
    goal: GridPosition,
    n: int,
)
    requires
        0 <= n <= cands.len(),
    ensures
        ({
            let (p, turns) = fewest_turns(travel, traveller, cands, start, goal, n);
            &&& forall|i: int|
                0 <= i < n ==> turns <= travel.turn_distance(
                    traveller,
                    #[trigger] cands[i],
                    goal,
                ).turns
            &&& if turns == u32::MAX {
                p == start
            } else {
                cands.contains(p) && travel.turn_distance(traveller, p, goal).turns == turns
            }
        }),
    decreases n,
{
    if n > 0 {
        lemma_fewest_turns(travel, traveller, cands, start, goal, n - 1);
        assert(cands.contains(cands[n - 1]));
    }
}

/// The tile is one of those, or the one to start from, and none of them is nearer to the goal.
pub open spec fn is_nearest(
    tiles: Seq<GridPosition>,
    start: GridPosition,
    goal: GridPosition,
    p: GridPosition,
) -> bool {
    &&& p == start || tiles.contains(p)
    &&& manhattan(p, goal) <= manhattan(start, goal)
    &&& forall|i: int|
        0 <= i < tiles.len() ==> manhattan(p, goal) <= manhattan(#[trigger] tiles[i], goal)
}

proof fn lemma_nearest_to(
    cands: Seq<GridPosition>,
    start: GridPosition,
    goal: GridPosition,
    n: int,
)
    requires
        0 <= n <= cands.len(),
    ensures
        ({
            let p = nearest_to(cands, start, goal, n);
            &&& p == start || cands.contains(p)
            &&& manhattan(p, goal) <= manhattan(start, goal)
            &&& forall|i: int|
                0 <= i < n ==> manhattan(p, goal) <= manhattan(#[trigger] cands[i], goal)
        }),
    decreases n,
{
    if n > 0 {
        lemma_nearest_to(cands, start, goal, n - 1);
        assert(cands.contains(cands[n - 1]));
    }
}

/// The cargo gets into the transport when the transport stands at the meeting point, the cargo can
/// still act and the transport's tile is within its reach or at most one step away; only then, and
/// into no other transport.
pub proof fn law_cargo_boards_at_the_meeting_point(
    board: Board,
    map: GameMap,
    registry: MasterDataRegistry,
    islands: Seq<Island>,
    options: MissionOptions,
    mission: TransportMission,
    i: int,
    j: int,
    carrier: Carrier,
    cargo_pos: GridPosition,
)
    requires
        is_row(board, i, mission.transport_entity),
        is_row(board, j, mission.cargo_entity),
        carries(board.rows[i], carrier),
        board.rows[j].position == Some(cargo_pos),
        mission.phase == TransportPhase::Pickup,
    ensures
        ({
            let all = mission_commands(board, map, registry, islands, options, mission);
            let here = carrier.position;
            let meetup = meetup_point(
                map,
                registry,
                islands,
                carrier,
                board.rows[j].stats,
                cargo_pos,
            );
            let boards = board.rows[j].action_completed != Some(true) && board.rows[j].stats is Some
                && here == meetup && (options.cargo_reachable@.contains(here) || manhattan(
                cargo_pos,
                here,
            ) <= 1);
            let load = (
                mission.cargo_entity,
                AiCommand::Load {
                    transport_entity: mission.transport_entity,
                    target_pos: here,
                },
            );
            &&& boards ==> all.contains(load)
            &&& forall|k: int|
                0 <= k < all.len() && (#[trigger] all[k]).1 is Load ==> boards && all[k] == load
        }),
{
    lemma_row(board, i, mission.transport_entity);
    lemma_row(board, j, mission.cargo_entity);
    let all = mission_commands(board, map, registry, islands, options, mission);
    let meetup = meetup_point(map, registry, islands, carrier, board.rows[j].stats, cargo_pos);
    let load = (
        mission.cargo_entity,
        AiCommand::Load {
            transport_entity: mission.transport_entity,
            target_pos: carrier.position,
        },
    );
    if board.rows[j].action_completed != Some(true) && board.rows[j].stats is Some
        && carrier.position == meetup && (options.cargo_reachable@.contains(carrier.position)
        || manhattan(cargo_pos, carrier.position) <= 1) {
        assert(all[all.len() - 1] == load);
    }
}

/// While the cargo is fetched, a transport that can still act goes to the tile within its reach
/// from which the meeting point is soonest reached. A cargo that can still act and does not board
/// does likewise. Nobody who has acted goes anywhere, and where nobody can act the transport stays.
pub proof fn law_pickup_goes_to_the_meeting_point(
    board: Board,
    map: GameMap,
    registry: MasterDataRegistry,
    islands: Seq<Island>,
    options: MissionOptions,
    mission: TransportMission,
    i: int,
    j: int,
    carrier: Carrier,
    cargo_pos: GridPosition,
)
    requires
        is_row(board, i, mission.transport_entity),
        is_row(board, j, mission.cargo_entity),
        carries(board.rows[i], carrier),
        board.rows[j].position == Some(cargo_pos),
        mission.phase == TransportPhase::Pickup,
    ensures
        ({
            let all = mission_commands(board, map, registry, islands, options, mission);
            let meetup = meetup_point(
                map,
                registry,
                islands,
                carrier,
                board.rows[j].stats,
                cargo_pos,
            );
            let first = board.rows[i].action_completed != Some(true);
            let second = board.rows[j].action_completed != Some(true) && board.rows[j].stats is Some;
            &&& all.len() == (if first && second {
                2int
            } else {
                1int
            })
            &&& first ==> all[0].0 == mission.transport_entity && (all[0].1 matches AiCommand::Wait {
                target_pos,
            } && is_soonest(
                options.travel,
                carrier.traveller,
                options.reachable@,
                carrier.position,
                meetup,
                target_pos,
            ))
            &&& !first && !second ==> all[0] == (
                mission.transport_entity,
                AiCommand::Wait { target_pos: carrier.position },
            )
            &&& second ==> all[all.len() - 1].0 == mission.cargo_entity && (match all[all.len()
                - 1].1 {
                AiCommand::Wait { target_pos } => is_soonest(
                    options.travel,
                    Traveller {
                        player_id: carrier.traveller.player_id,
                        movement_type: board.rows[j].stats->0.movement_type,
                        max_movement: board.rows[j].stats->0.max_movement,
                    },
                    options.cargo_reachable@,
                    cargo_pos,
                    meetup,
                    target_pos,
                ),
                AiCommand::Load { .. } => true,
                AiCommand::Drop { .. } => false,
            })
        }),
{
    lemma_row(board, i, mission.transport_entity);
    lemma_row(board, j, mission.cargo_entity);
    let meetup = meetup_point(map, registry, islands, carrier, board.rows[j].stats, cargo_pos);
    lemma_quickest(
        options.travel,
        carrier.traveller,
        options.reachable@,
        carrier.position,
        meetup,
        options.reachable.len() as int,
    );
    if let Some(stats) = board.rows[j].stats {
        lemma_quickest(
            options.travel,
            Traveller {
                player_id: carrier.traveller.player_id,
                movement_type: stats.movement_type,
                max_movement: stats.max_movement,
            },
            options.cargo_reachable@,
            cargo_pos,
            meetup,
            options.cargo_reachable.len() as int,
        );
    }
}

/// The first island in the list that has the tile, if there is one.
pub open spec fn is_home_island(
    islands: Seq<Island>,
    p: GridPosition,
    h: Option<int>,
) -> bool {
    match h {
        Some(k) => 0 <= k < islands.len() && islands[k].tiles@.contains(p) && forall|l: int|
            0 <= l < k ==> !(#[trigger] islands[l]).tiles@.contains(p),
        None => forall|l: int| 0 <= l < islands.len() ==> !(#[trigger] islands[l]).tiles@.contains(p),
    }
}

proof fn lemma_home_island(islands: Seq<Island>, p: GridPosition, h: Option<int>, i: int)
    requires
        is_home_island(islands, p, h),
        0 <= i <= islands.len(),
        h matches Some(k) ==> i <= k,
    ensures
        island_holding(islands, p, i) == h,
    decreases islands.len() - i,
{
    if i < islands.len() {
        if islands[i].tiles@.contains(p) {
            if let Some(k) = h {
                if i < k {
                    assert(!islands[i].tiles@.contains(p));
                }
            }
        } else {
            lemma_home_island(islands, p, h, i + 1);
        }
    }
}

proof fn lemma_enterable_all(
    map: GameMap,
    registry: MasterDataRegistry,
    movement_type: MovementType,
    near: Seq<GridPosition>,
    n: int,
    p: GridPosition,
)
    requires
        0 <= n <= near.len(),
    ensures
        enterable(map, registry, movement_type, near, n).contains(p) <==> can_enter(
            map,
            registry,
            movement_type,
            p,
        ) && near.take(n).contains(p),
    decreases n,
{
    let some = near.take(n);
    let list = enterable(map, registry, movement_type, near, n);
    if n > 0 {
        let fewer = near.take(n - 1);
        let rest = enterable(map, registry, movement_type, near, n - 1);
        lemma_enterable_all(map, registry, movement_type, near, n - 1, p);
        assert(some =~= fewer.push(near[n - 1]));
        lemma_pushed(fewer, near[n - 1], p);
        lemma_pushed(rest, near[n - 1], p);
    } else {
        assert(some =~= Seq::<GridPosition>::empty());
    }
}

/// A way of moving can dock at the tile: it can enter it, and the tile lies beside the island.
pub open spec fn is_dock(
    map: GameMap,
    registry: MasterDataRegistry,
    movement_type: MovementType,
    tiles: Seq<GridPosition>,
    p: GridPosition,
) -> bool {
    &&& map.terrain_at(p) matches Some(t) && registry.entry_cost(movement_type, t) is Some
    &&& exists|k: int| 0 <= k < tiles.len() && map.adjacent(#[trigger] tiles[k]).contains(p)
}

proof fn lemma_docks_all(
    map: GameMap,
    registry: MasterDataRegistry,
    movement_type: MovementType,
    tiles: Seq<GridPosition>,
    n: int,
    p: GridPosition,
)
    requires
        0 <= n <= tiles.len(),
    ensures
        docks(map, registry, movement_type, tiles, n).contains(p) <==> is_dock(
            map,
            registry,
            movement_type,
            tiles.take(n),
            p,
        ),
    decreases n,
{
    let some = tiles.take(n);
    if n > 0 {
        let fewer = tiles.take(n - 1);
        let near = map.adjacent(tiles[n - 1]);
        lemma_docks_all(map, registry, movement_type, tiles, n - 1, p);
        lemma_enterable_all(map, registry, movement_type, near, near.len() as int, p);
        assert(near.take(near.len() as int) =~= near);
        lemma_joined(
            docks(map, registry, movement_type, tiles, n - 1),
            enterable(map, registry, movement_type, near, near.len() as int),
            p,
        );
        assert(lies_beside(map, some, p) <==> lies_beside(map, fewer, p) || near.contains(p)) by {
            if lies_beside(map, some, p) {
                let k = choose|k: int|
                    0 <= k < some.len() && map.adjacent(#[trigger] some[k]).contains(p);
                if k < n - 1 {
                    assert(fewer[k] == some[k]);
                }
            }
            if lies_beside(map, fewer, p) {
                let k = choose|k: int|
                    0 <= k < fewer.len() && map.adjacent(#[trigger] fewer[k]).contains(p);
                assert(some[k] == fewer[k]);
            }
            if near.contains(p) {
                assert(map.adjacent(some[n - 1]).contains(p));
            }
        }
    } else {
        assert(some =~= Seq::<GridPosition>::empty());
    }
}

proof fn lemma_docks_of_island(
    map: GameMap,
    registry: MasterDataRegistry,
    movement_type: MovementType,
    tiles: Seq<GridPosition>,
)
    ensures
        forall|p: GridPosition| #[trigger]
            docks(map, registry, movement_type, tiles, tiles.len() as int).contains(p) <==> is_dock(
                map,
                registry,
                movement_type,
                tiles,
                p,
            ),
{
    assert(tiles.take(tiles.len() as int) =~= tiles);
    assert forall|p: GridPosition| #[trigger]
        docks(map, registry, movement_type, tiles, tiles.len() as int).contains(p) <==> is_dock(
            map,
            registry,
            movement_type,
            tiles,
            p,
        ) by {
        lemma_docks_all(map, registry, movement_type, tiles, tiles.len() as int, p);
    }
}

/// Where a transport heads for to serve an island. A ship heads for a dock, anything else for a
/// tile of the island itself, and none of those is nearer. There is no place to head for exactly if
/// there is no dock or no tile.
pub proof fn law_approach_serves_the_island(
    map: GameMap,
    registry: MasterDataRegistry,
    tiles: Seq<GridPosition>,
    from: GridPosition,
    movement_type: MovementType,
)
    ensures
        ({
            let r = island_approach(map, registry, tiles, from, movement_type);
            if movement_type == MovementType::Ship {
                match r {
                    Some(p) => is_dock(map, registry, movement_type, tiles, p) && forall|
                        q: GridPosition,
                    | #[trigger]
                        is_dock(map, registry, movement_type, tiles, q) ==> manhattan(p, from)
                            <= manhattan(q, from),
                    None => forall|q: GridPosition|
                        !#[trigger] is_dock(map, registry, movement_type, tiles, q),
                }
            } else {
                match r {
                    Some(p) => tiles.contains(p) && forall|q: GridPosition| #[trigger]
                        tiles.contains(q) ==> manhattan(p, from) < manhattan(q, from) || (manhattan(
                            p,
                            from,
                        ) == manhattan(q, from) && (p.x < q.x || (p.x == q.x && p.y <= q.y))),
                    None => tiles.len() == 0,
                }
            }
        }),
{
    if movement_type == MovementType::Ship {
        let all = docks(map, registry, movement_type, tiles, tiles.len() as int);
        lemma_docks_of_island(map, registry, movement_type, tiles);
        lemma_closest_within(all, from, BEYOND_ALL as nat, all.len() as int);
        assert forall|q: GridPosition| #[trigger]
            is_dock(map, registry, movement_type, tiles, q) implies all.contains(q) by {
            assert(all.contains(q) <==> is_dock(map, registry, movement_type, tiles, q));
        }
        if let Some(i) = closest_within(all, from, BEYOND_ALL as nat, all.len() as int) {
            assert(all.contains(all[i]));
        } else {
            assert forall|q: GridPosition| !#[trigger] is_dock(
                map,
                registry,
                movement_type,
                tiles,
                q,
            ) by {
                if is_dock(map, registry, movement_type, tiles, q) {
                    let k = choose|k: int| 0 <= k < all.len() && all[k] == q;
                    assert(manhattan(all[k], from) < BEYOND_ALL);
                }
            }
        }
    } else {
        lemma_preferred_tile(tiles, from, tiles.len() as int);
    }
}

proof fn lemma_preferred_tile(tiles: Seq<GridPosition>, from: GridPosition, n: int)
    requires
        0 <= n <= tiles.len(),
    ensures
        match nearest_tile(tiles, from, n) {
            Some(p) => tiles.contains(p) && forall|i: int|
                0 <= i < n ==> manhattan(p, from) < manhattan(#[trigger] tiles[i], from) || (
                manhattan(p, from) == manhattan(tiles[i], from) && (p.x < tiles[i].x || (p.x
                    == tiles[i].x && p.y <= tiles[i].y))),
            None => n == 0,
        },
    decreases n,
{
    if n > 0 {
        lemma_preferred_tile(tiles, from, n - 1);
        assert(tiles.contains(tiles[n - 1]));
    }
}

/// Both can enter the tile, and it lies on the island, if there is one.
pub open spec fn is_meeting_tile(
    map: GameMap,
    registry: MasterDataRegistry,
    a: MovementType,
    b: MovementType,
    islands: Seq<Island>,
    h: Option<int>,
    p: GridPosition,
) -> bool {
    &&& map.terrain_at(p) matches Some(t) && registry.entry_cost(a, t) is Some
        && registry.entry_cost(b, t) is Some
    &&& h matches Some(k) ==> islands[k].tiles@.contains(p)
}

proof fn lemma_meetup_column(
    map: GameMap,
    registry: MasterDataRegistry,
    a: MovementType,
    b: MovementType,
    island: Option<Seq<GridPosition>>,
    x: int,
    n: int,
    p: GridPosition,
)
    requires
        0 <= n <= map.height,
        0 <= x < map.width,
    ensures
        meetup_column(map, registry, a, b, island, x, n).contains(p) <==> can_meet(
            map,
            registry,
            a,
            b,
            island,
            p,
        ) && p.x == x && p.y < n,
    decreases n,
{
    if n > 0 {
        lemma_meetup_column(map, registry, a, b, island, x, n - 1, p);
        let q = GridPosition { x: x as usize, y: (n - 1) as usize };
        lemma_pushed(meetup_column(map, registry, a, b, island, x, n - 1), q, p);
        assert(p.x == x && p.y == n - 1 ==> p == q);
    }
}

proof fn lemma_meetup_tiles(
    map: GameMap,
    registry: MasterDataRegistry,
    a: MovementType,
    b: MovementType,
    island: Option<Seq<GridPosition>>,
    n: int,
    p: GridPosition,
)
    requires
        0 <= n <= map.width,
    ensures
        meetup_tiles(map, registry, a, b, island, n).contains(p) <==> can_meet(
            map,
            registry,
            a,
            b,
            island,
            p,
        ) && p.x < n,
    decreases n,
{
    if n > 0 {
        lemma_meetup_tiles(map, registry, a, b, island, n - 1, p);
        lemma_meetup_column(map, registry, a, b, island, n - 1, map.height as int, p);
        lemma_joined(
            meetup_tiles(map, registry, a, b, island, n - 1),
            meetup_column(map, registry, a, b, island, n - 1, map.height as int),
            p,
        );
    }
}

/// The two have together no farther to go to `p` than to `q`, and where it is as far, their ways
/// to `p` differ by no more.
pub open spec fn suits_better(
    t: GridPosition,
    c: GridPosition,
    p: GridPosition,
    q: GridPosition,
) -> bool {
    let (tp, cp) = (manhattan(t, p) as int, manhattan(c, p) as int);
    let (tq, cq) = (manhattan(t, q) as int, manhattan(c, q) as int);
    tp + cp < tq + cq || (tp + cp == tq + cq && (if tp >= cp {
        tp - cp
    } else {
        cp - tp
    }) <= (if tq >= cq {
        tq - cq
    } else {
        cq - tq
    }))
}

proof fn lemma_best_meetup(tiles: Seq<GridPosition>, t: GridPosition, c: GridPosition, n: int)
    requires
        0 <= n <= tiles.len(),
    ensures
        match best_meetup(tiles, t, c, n) {
            Some(p) => tiles.contains(p) && forall|i: int|
                0 <= i < n ==> suits_better(t, c, p, #[trigger] tiles[i]),
            None => n == 0,
        },
    decreases n,
{
    if n > 0 {
        lemma_best_meetup(tiles, t, c, n - 1);
        assert(tiles.contains(tiles[n - 1]));
    }
}

/// Where the transport and its cargo meet. A ship goes to the nearest dock of the cargo's island,
/// unless it is 9,999 steps away or more. Any other transport meets the cargo on a tile of the
/// cargo's island that both can enter, and no such tile suits them better. Where there is no such
/// tile they meet where the cargo stands.
pub proof fn law_meeting_point_suits_both(
    map: GameMap,
    registry: MasterDataRegistry,
    islands: Seq<Island>,
    carrier: Carrier,
    stats: UnitStats,
    cargo_pos: GridPosition,
    h: Option<int>,
)
    requires
        is_home_island(islands, cargo_pos, h),
    ensures
        ({
            let p = meetup_point(map, registry, islands, carrier, Some(stats), cargo_pos);
            let a = carrier.traveller.movement_type;
            let b = stats.movement_type;
            let here = carrier.position;
            if a == MovementType::Ship {
                match h {
                    Some(k) => {
                        let tiles = islands[k].tiles@;
                        let near = exists|q: GridPosition| #[trigger]
                            is_dock(map, registry, a, tiles, q) && manhattan(q, here) < 9999;
                        if near {
                            is_dock(map, registry, a, tiles, p) && forall|q: GridPosition|
                                #[trigger] is_dock(map, registry, a, tiles, q) ==> manhattan(p, here)
                                    <= manhattan(q, here)
                        } else {
                            p == cargo_pos
                        }
                    },
                    None => p == cargo_pos,
                }
            } else if exists|q: GridPosition| #[trigger]
                is_meeting_tile(map, registry, a, b, islands, h, q) {
                is_meeting_tile(map, registry, a, b, islands, h, p) && forall|q: GridPosition|
                    #[trigger] is_meeting_tile(map, registry, a, b, islands, h, q) ==> suits_better(
                        here,
                        cargo_pos,
                        p,
                        q,
                    )
            } else {
                p == cargo_pos
            }
        }),
{
    let a = carrier.traveller.movement_type;
    let b = stats.movement_type;
    let here = carrier.position;
    let p = meetup_point(map, registry, islands, carrier, Some(stats), cargo_pos);
    lemma_home_island(islands, cargo_pos, h, 0);
    if a == MovementType::Ship {
        if let Some(k) = h {
            let tiles = islands[k].tiles@;
            let all = docks(map, registry, a, tiles, tiles.len() as int);
            lemma_docks_of_island(map, registry, a, tiles);
            lemma_closest_within(all, here, TOO_FAR as nat, all.len() as int);
            assert forall|q: GridPosition| #[trigger]
                is_dock(map, registry, a, tiles, q) implies all.contains(q) by {
                assert(all.contains(q) <==> is_dock(map, registry, a, tiles, q));
            }
            if let Some(i) = closest(all, here, all.len() as int) {
                assert(all.contains(all[i]));
                assert(is_dock(map, registry, a, tiles, all[i]) && manhattan(all[i], here) < 9999);
            }
        }
    } else {
        let island = match h {
            Some(k) => Some(islands[k].tiles@),
            None => None,
        };
        let tiles = meetup_tiles(map, registry, a, b, island, map.width as int);
        assert forall|q: GridPosition| #[trigger]
            is_meeting_tile(map, registry, a, b, islands, h, q) <==> tiles.contains(q) by {
            lemma_meetup_tiles(map, registry, a, b, island, map.width as int, q);
            assert(can_meet(map, registry, a, b, island, q) <==> is_meeting_tile(
                map,
                registry,
                a,
                b,
                islands,
                h,
                q,
            ));
        }
        lemma_best_meetup(tiles, here, cargo_pos, tiles.len() as int);
        if tiles.len() > 0 {
            assert(tiles.contains(tiles[0]));
            assert(is_meeting_tile(map, registry, a, b, islands, h, tiles[0]));
            assert(tiles.contains(p));
            assert(is_meeting_tile(map, registry, a, b, islands, h, p));
        }
    }
}

/// The rules let the transport land its cargo on the tile from the place: the first row for the
/// place lists the tile.
pub open spec fn may_land(rows: Seq<DropRow>, place: GridPosition, tile: GridPosition) -> bool {
    exists|k: int|
        0 <= k < rows.len() && (#[trigger] rows[k]).at == place && rows[k].tiles@.contains(tile)
            && forall|l: int| 0 <= l < k ==> (#[trigger] rows[l]).at != place
}

proof fn lemma_drops_from(rows: Seq<DropRow>, place: GridPosition, tile: GridPosition, i: int)
    requires
        0 <= i <= rows.len(),
        forall|l: int| 0 <= l < i ==> (#[trigger] rows[l]).at != place,
    ensures
        drops_at(rows, place, i).contains(tile) <==> may_land(rows, place, tile),
    decreases rows.len() - i,
{
    if i < rows.len() {
        if rows[i].at != place {
            lemma_drops_from(rows, place, tile, i + 1);
        } else if may_land(rows, place, tile) {
            let k = choose|k: int|
                0 <= k < rows.len() && (#[trigger] rows[k]).at == place && rows[k].tiles@.contains(
                    tile,
                ) && forall|l: int| 0 <= l < k ==> (#[trigger] rows[l]).at != place;
            if i < k {
                assert(rows[i].at != place);
            }
            if k < i {
                assert(rows[k].at != place);
            }
        } else if rows[i].tiles@.contains(tile) {
            assert(rows[i].at == place);
        }
    }
}

proof fn lemma_landings_from_all(
    at: GridPosition,
    drops: Seq<GridPosition>,
    island: Seq<GridPosition>,
    n: int,
    place: GridPosition,
    tile: GridPosition,
)
    requires
        0 <= n <= drops.len(),
    ensures
        landings_from(at, drops, island, n).contains((place, tile)) <==> place == at
            && island.contains(tile) && drops.take(n).contains(tile),
    decreases n,
{
    let some = drops.take(n);
    if n > 0 {
        let fewer = drops.take(n - 1);
        lemma_landings_from_all(at, drops, island, n - 1, place, tile);
        assert(some =~= fewer.push(drops[n - 1]));
        lemma_pushed(fewer, drops[n - 1], tile);
        lemma_pushed(
            landings_from(at, drops, island, n - 1),
            (at, drops[n - 1]),
            (place, tile),
        );
    } else {
        assert(some =~= Seq::<GridPosition>::empty());
    }
}

proof fn lemma_landings_all(
    rows: Seq<DropRow>,
    places: Seq<GridPosition>,
    island: Seq<GridPosition>,
    n: int,
    place: GridPosition,
    tile: GridPosition,
)
    requires
        0 <= n <= places.len(),
    ensures
        landings(rows, places, island, n).contains((place, tile)) <==> places.take(n).contains(place)
            && island.contains(tile) && may_land(rows, place, tile),
    decreases n,
{
    let some = places.take(n);
    if n > 0 {
        let fewer = places.take(n - 1);
        let drops = drops_at(rows, places[n - 1], 0);
        lemma_landings_all(rows, places, island, n - 1, place, tile);
        lemma_landings_from_all(
            places[n - 1],
            drops,
            island,
            drops.len() as int,
            place,
            tile,
        );
        assert(drops.take(drops.len() as int) =~= drops);
        lemma_drops_from(rows, places[n - 1], tile, 0);
        lemma_joined(
            landings(rows, places, island, n - 1),
            landings_from(places[n - 1], drops, island, drops.len() as int),
            (place, tile),
        );
        assert(some =~= fewer.push(places[n - 1]));
        lemma_pushed(fewer, places[n - 1], place);
    } else {
        assert(some =~= Seq::<GridPosition>::empty());
    }
}

/// The island in the list that a mission goes to: the first one with the number.
pub open spec fn is_target(islands: Seq<Island>, mission: TransportMission, h: int) -> bool {
    0 <= h < islands.len() && mission.target_island == Some(islands[h].id) && forall|l: int|
        0 <= l < h ==> (#[trigger] islands[l]).id != islands[h].id
}

proof fn lemma_target(islands: Seq<Island>, id: IslandId, h: int, i: int)
    requires
        0 <= i <= h < islands.len(),
        islands[h].id == id,
        forall|l: int| 0 <= l < h ==> (#[trigger] islands[l]).id != id,
    ensures
        island_numbered(islands, id, i) == Some(h),
    decreases h - i,
{
    if i < h {
        assert(islands[i].id != id);
        lemma_target(islands, id, h, i + 1);
    }
}

/// From a place within its reach, and not 9,999 steps away or more, the transport may land its
/// cargo on a tile of the island.
pub open spec fn is_landing(
    options: MissionOptions,
    here: GridPosition,
    tiles: Seq<GridPosition>,
    place: GridPosition,
    tile: GridPosition,
) -> bool {
    &&& options.reachable@.contains(place)
    &&& may_land(options.drops@, place, tile)
    &&& tiles.contains(tile)
    &&& manhattan(place, here) < 9999
}

/// On its way a transport lands its cargo as soon as it can: wherever it may land it on the target
/// island this turn, it does, from a place than which no other is nearer. Otherwise it goes to the
/// tile within its reach from which it is fewest turns to where it heads for; where none leads
/// there it stays. Without a place to head for it does nothing.
pub proof fn law_transit_lands_as_soon_as_it_can(
    board: Board,
    map: GameMap,
    registry: MasterDataRegistry,
    islands: Seq<Island>,
    options: MissionOptions,
    mission: TransportMission,
    i: int,
    carrier: Carrier,
    h: int,
)
    requires
        is_row(board, i, mission.transport_entity),
        carries(board.rows[i], carrier),
        mission.phase == TransportPhase::Transit,
        is_target(islands, mission, h),
    ensures
        ({
            let all = mission_commands(board, map, registry, islands, options, mission);
            let tiles = islands[h].tiles@;
            let here = carrier.position;
            match island_approach(map, registry, tiles, here, carrier.traveller.movement_type) {
                Some(goal) => {
                    &&& all.len() == 1
                    &&& all[0].0 == mission.transport_entity
                    &&& if exists|place: GridPosition, tile: GridPosition| #[trigger]
                        is_landing(options, here, tiles, place, tile) {
                        all[0].1 matches AiCommand::Drop {
                            transport_target_pos,
                            cargo_drop_pos,
                            cargo_entity,
                        } && cargo_entity == mission.cargo_entity && is_landing(
                            options,
                            here,
                            tiles,
                            transport_target_pos,
                            cargo_drop_pos,
                        ) && forall|place: GridPosition, tile: GridPosition| #[trigger]
                            is_landing(options, here, tiles, place, tile) ==> manhattan(
                                transport_target_pos,
                                here,
                            ) <= manhattan(place, here)
                    } else {
                        all[0].1 matches AiCommand::Wait { target_pos } && goes_fewest(
                            options,
                            carrier,
                            goal,
                            target_pos,
                        )
                    }
                },
                None => all.len() == 0,
            }
        }),
{
    lemma_row(board, i, mission.transport_entity);
    lemma_target(islands, islands[h].id, h, 0);
    let tiles = islands[h].tiles@;
    let here = carrier.position;
    let places = options.reachable@;
    let pairs = landings(options.drops@, places, tiles, places.len() as int);
    assert(places.take(places.len() as int) =~= places);
    assert forall|place: GridPosition, tile: GridPosition| #[trigger]
        pairs.contains((place, tile)) <==> places.contains(place) && tiles.contains(tile)
            && may_land(options.drops@, place, tile) by {
        lemma_landings_all(options.drops@, places, tiles, places.len() as int, place, tile);
    }
    lemma_closest_pair(pairs, here);
    if let Some(goal) = island_approach(
        map,
        registry,
        tiles,
        here,
        carrier.traveller.movement_type,
    ) {
        lemma_fewest_turns(
            options.travel,
            carrier.traveller,
            places,
            here,
            goal,
            places.len() as int,
        );
        assert forall|place: GridPosition, tile: GridPosition| #[trigger]
            is_landing(options, here, tiles, place, tile) implies pairs.contains((place, tile)) by {
            assert(pairs.contains((place, tile)) <==> places.contains(place) && tiles.contains(tile)
                && may_land(options.drops@, place, tile));
        }
        if let Some((at, tile)) = closest_landing(pairs, here) {
            assert(pairs.contains((at, tile)));
            assert(is_landing(options, here, tiles, at, tile));
        }
    }
}

/// The tile within reach from which it is fewest turns to the goal; where none leads there, the
/// place where the transport stands.
pub open spec fn goes_fewest(
    options: MissionOptions,
    carrier: Carrier,
    goal: GridPosition,
    p: GridPosition,
) -> bool {
    let places = options.reachable@;
    let turns = |q: GridPosition|
        options.travel.turn_distance(carrier.traveller, q, goal).turns;
    if forall|k: int| 0 <= k < places.len() ==> turns(#[trigger] places[k]) == u32::MAX {
        p == carrier.position
    } else {
        places.contains(p) && forall|k: int|
            0 <= k < places.len() ==> turns(p) <= turns(#[trigger] places[k])
    }
}

proof fn lemma_closest_pair(pairs: Seq<(GridPosition, GridPosition)>, from: GridPosition)
    ensures
        match closest_landing(pairs, from) {
            Some(pair) => pairs.contains(pair) && manhattan(pair.0, from) < 9999 && forall|
                other: (GridPosition, GridPosition),
            | #[trigger] pairs.contains(other) ==> manhattan(pair.0, from) <= manhattan(other.0, from),
            None => forall|other: (GridPosition, GridPosition)| #[trigger]
                pairs.contains(other) ==> manhattan(other.0, from) >= 9999,
        },
{
    let places = places_of(pairs);
    lemma_closest_within(places, from, TOO_FAR as nat, pairs.len() as int);
    assert forall|other: (GridPosition, GridPosition)| #[trigger]
        pairs.contains(other) implies exists|k: int|
        0 <= k < places.len() && #[trigger] places[k] == other.0 by {
        let k = choose|k: int| 0 <= k < pairs.len() && pairs[k] == other;
        assert(places[k] == other.0);
    }
    if let Some(k) = closest(places, from, pairs.len() as int) {
        assert(pairs.contains(pairs[k]));
    }
}

/// From a place within its reach, and not 9,999 steps away or more, the transport may land its
/// cargo there first of all.
pub open spec fn is_first_landing(
    options: MissionOptions,
    here: GridPosition,
    place: GridPosition,
    tile: GridPosition,
) -> bool {
    &&& options.reachable@.contains(place)
    &&& manhattan(place, here) < 9999
    &&& exists|k: int|
        0 <= k < options.drops.len() && (#[trigger] options.drops[k]).at == place
            && options.drops[k].tiles.len() > 0 && options.drops[k].tiles[0] == tile && forall|l: int|
            0 <= l < k ==> (#[trigger] options.drops[l]).at != place
}

proof fn lemma_first_drop_from(rows: Seq<DropRow>, place: GridPosition, tile: GridPosition, i: int)
    requires
        0 <= i <= rows.len(),
        forall|l: int| 0 <= l < i ==> (#[trigger] rows[l]).at != place,
    ensures
        (drops_at(rows, place, i).len() > 0 && drops_at(rows, place, i)[0] == tile) <==> exists|k: int|
            0 <= k < rows.len() && (#[trigger] rows[k]).at == place && rows[k].tiles.len() > 0
                && rows[k].tiles[0] == tile && forall|l: int|
                0 <= l < k ==> (#[trigger] rows[l]).at != place,
    decreases rows.len() - i,
{
    if i < rows.len() {
        if rows[i].at != place {
            lemma_first_drop_from(rows, place, tile, i + 1);
        } else {
            if exists|k: int|
                0 <= k < rows.len() && (#[trigger] rows[k]).at == place && rows[k].tiles.len() > 0
                    && rows[k].tiles[0] == tile && forall|l: int|
                    0 <= l < k ==> (#[trigger] rows[l]).at != place {
                let k = choose|k: int|
                    0 <= k < rows.len() && (#[trigger] rows[k]).at == place && rows[k].tiles.len()
                        > 0 && rows[k].tiles[0] == tile && forall|l: int|
                        0 <= l < k ==> (#[trigger] rows[l]).at != place;
                if i < k {
                    assert(rows[i].at != place);
                }
                if k < i {
                    assert(rows[k].at != place);
                }
            }
        }
    }
}

proof fn lemma_first_landings_all(
    rows: Seq<DropRow>,
    places: Seq<GridPosition>,
    n: int,
    place: GridPosition,
    tile: GridPosition,
)
    requires
        0 <= n <= places.len(),
    ensures
        first_landings(rows, places, n).contains((place, tile)) <==> places.take(n).contains(place)
            && drops_at(rows, place, 0).len() > 0 && drops_at(rows, place, 0)[0] == tile,
    decreases n,
{
    let some = places.take(n);
    if n > 0 {
        let fewer = places.take(n - 1);
        let drops = drops_at(rows, places[n - 1], 0);
        lemma_first_landings_all(rows, places, n - 1, place, tile);
        assert(some =~= fewer.push(places[n - 1]));
        lemma_pushed(fewer, places[n - 1], place);
        if drops.len() > 0 {
            lemma_pushed(
                first_landings(rows, places, n - 1),
                (places[n - 1], drops[0]),
                (place, tile),
            );
        }
    } else {
        assert(some =~= Seq::<GridPosition>::empty());
    }
}

/// A transport that is to land its cargo lands it from where it stands if it may, else from a
/// place within its reach than which no other from which it may is nearer. Failing both it gets
/// as near as it can to where it heads for on its island; without an island it stays.
pub proof fn law_landing_takes_the_nearest_place(
    board: Board,
    map: GameMap,
    registry: MasterDataRegistry,
    islands: Seq<Island>,
    options: MissionOptions,
    mission: TransportMission,
    i: int,
    carrier: Carrier,
)
    requires
        is_row(board, i, mission.transport_entity),
        carries(board.rows[i], carrier),
        mission.phase == TransportPhase::Drop,
    ensures
        ({
            let all = mission_commands(board, map, registry, islands, options, mission);
            let here = carrier.position;
            &&& all.len() == 1
            &&& all[0].0 == mission.transport_entity
            &&& if options.drops_here.len() > 0 {
                all[0].1 == (AiCommand::Drop {
                    transport_target_pos: here,
                    cargo_drop_pos: options.drops_here[0],
                    cargo_entity: mission.cargo_entity,
                })
            } else if exists|place: GridPosition, tile: GridPosition| #[trigger]
                is_first_landing(options, here, place, tile) {
                all[0].1 matches AiCommand::Drop {
                    transport_target_pos,
                    cargo_drop_pos,
                    cargo_entity,
                } && cargo_entity == mission.cargo_entity && is_first_landing(
                    options,
                    here,
                    transport_target_pos,
                    cargo_drop_pos,
                ) && forall|place: GridPosition, tile: GridPosition| #[trigger]
                    is_first_landing(options, here, place, tile) ==> manhattan(
                        transport_target_pos,
                        here,
                    ) <= manhattan(place, here)
            } else {
                all[0].1 matches AiCommand::Wait { target_pos } && {
                    &&& forall|h: int| #[trigger]
                        is_target(islands, mission, h) ==> match island_approach(
                            map,
                            registry,
                            islands[h].tiles@,
                            here,
                            carrier.traveller.movement_type,
                        ) {
                            Some(goal) => is_nearest(options.reachable@, here, goal, target_pos),
                            None => target_pos == here,
                        }
                    &&& (forall|h: int| !#[trigger] is_target(islands, mission, h)) ==> target_pos
                        == here
                }
            }
        }),
{
    lemma_row(board, i, mission.transport_entity);
    let here = carrier.position;
    let places = options.reachable@;
    let pairs = first_landings(options.drops@, places, places.len() as int);
    assert(places.take(places.len() as int) =~= places);
    assert forall|place: GridPosition, tile: GridPosition| #[trigger]
        pairs.contains((place, tile)) && manhattan(place, here) < 9999 <==> #[trigger]
        is_first_landing(options, here, place, tile) by {
        lemma_first_landings_all(options.drops@, places, places.len() as int, place, tile);
        lemma_first_drop_from(options.drops@, place, tile, 0);
    }
    lemma_closest_pair(pairs, here);
    if let Some((at, tile)) = closest_landing(pairs, here) {
        assert(pairs.contains((at, tile)));
        assert(is_first_landing(options, here, at, tile));
        assert forall|place: GridPosition, other: GridPosition| #[trigger]
            is_first_landing(options, here, place, other) implies manhattan(at, here) <= manhattan(
            place,
            here,
        ) by {
            assert(pairs.contains((place, other)));
        }
    } else {
        assert forall|place: GridPosition, tile: GridPosition| !#[trigger] is_first_landing(
            options,
            here,
            place,
            tile,
        ) by {
            if is_first_landing(options, here, place, tile) {
                assert(pairs.contains((place, tile)));
            }
        }
        let movement_type = carrier.traveller.movement_type;
        if let Some(goal) = mission_approach(map, registry, islands, mission, here, movement_type) {
            lemma_nearest_to(places, here, goal, places.len() as int);
        }
        assert forall|h: int| #[trigger] is_target(islands, mission, h) implies mission_approach(
            map,
            registry,
            islands,
            mission,
            here,
            movement_type,
        ) == island_approach(map, registry, islands[h].tiles@, here, movement_type) by {
            lemma_target(islands, islands[h].id, h, 0);
        }
        if forall|h: int| !#[trigger] is_target(islands, mission, h) {
            if let Some(id) = mission.target_island {
                lemma_numbered_from(islands, id, 0);
                if let Some(h) = island_numbered(islands, id, 0) {
                    assert(is_target(islands, mission, h));
                }
            }
        }
    }
}

proof fn lemma_numbered_from(islands: Seq<Island>, id: IslandId, i: int)
    requires
        0 <= i <= islands.len(),
        forall|l: int| 0 <= l < i ==> (#[trigger] islands[l]).id != id,
    ensures
        island_numbered(islands, id, i) matches Some(h) ==> 0 <= h < islands.len() && islands[h].id
            == id && forall|l: int| 0 <= l < h ==> (#[trigger] islands[l]).id != id,
    decreases islands.len() - i,
{
    if i < islands.len() && islands[i].id != id {
        lemma_numbered_from(islands, id, i + 1);
    }
}

/// A building of the player stands at the position.
pub open spec fn is_own_site(board: Board, player: PlayerId, p: GridPosition) -> bool {
    exists|k: int|
        0 <= k < board.rows.len() && (#[trigger] board.rows[k]).position == Some(p)
            && board.rows[k].property is Some && board.rows[k].property->0.owner_id == Some(player)
}

proof fn lemma_own_sites(rows: Seq<BoardRow>, player: PlayerId, n: int, p: GridPosition)
    requires
        0 <= n <= rows.len(),
    ensures
        own_sites(rows, player, n).contains(p) <==> exists|k: int|
            0 <= k < n && (#[trigger] rows[k]).position == Some(p) && rows[k].property is Some
                && rows[k].property->0.owner_id == Some(player),
    decreases n,
{
    if n > 0 {
        lemma_own_sites(rows, player, n - 1, p);
        let rest = own_sites(rows, player, n - 1);
        let last = rows[n - 1];
        if let Some(q) = last.position {
            lemma_pushed(rest, q, p);
        }
        if rest.contains(p) {
            let k = choose|k: int|
                0 <= k < n - 1 && (#[trigger] rows[k]).position == Some(p) && rows[k].property is Some
                && rows[k].property->0.owner_id == Some(player);
            assert(0 <= k < n && rows[k].position == Some(p));
        }
        if last.position == Some(p) && last.property is Some && last.property->0.owner_id == Some(
            player,
        ) {
            assert(rows[n - 1].position == Some(p));
        }
    }
}

/// A transport on its way home gets as near as it can to a building of its owner than which no
/// other is nearer; where all are 9,999 steps away or more, or there is none, it stays.
pub proof fn law_return_goes_to_the_nearest_own_building(
    board: Board,
    map: GameMap,
    registry: MasterDataRegistry,
    islands: Seq<Island>,
    options: MissionOptions,
    mission: TransportMission,
    i: int,
    carrier: Carrier,
)
    requires
        is_row(board, i, mission.transport_entity),
        carries(board.rows[i], carrier),
        mission.phase == TransportPhase::Return,
    ensures
        ({
            let all = mission_commands(board, map, registry, islands, options, mission);
            let here = carrier.position;
            let player = carrier.traveller.player_id;
            &&& all.len() == 1
            &&& all[0].0 == mission.transport_entity
            &&& all[0].1 matches AiCommand::Wait { target_pos } && if exists|home: GridPosition|
                #[trigger] is_own_site(board, player, home) && manhattan(home, here) < 9999 {
                exists|home: GridPosition| #[trigger]
                    is_own_site(board, player, home) && is_nearest(
                        options.reachable@,
                        here,
                        home,
                        target_pos,
                    ) && forall|other: GridPosition| #[trigger]
                        is_own_site(board, player, other) ==> manhattan(home, here) <= manhattan(
                            other,
                            here,
                        )
            } else {
                target_pos == here
            }
        }),
{
    lemma_row(board, i, mission.transport_entity);
    let here = carrier.position;
    let player = carrier.traveller.player_id;
    let places = options.reachable@;
    let sites = own_sites(board.rows@, player, board.rows.len() as int);
    assert forall|p: GridPosition| #[trigger] is_own_site(board, player, p) <==> sites.contains(p) by {
        lemma_own_sites(board.rows@, player, board.rows.len() as int, p);
    }
    lemma_closest_within(sites, here, TOO_FAR as nat, sites.len() as int);
    match closest(sites, here, sites.len() as int) {
        Some(k) => {
            lemma_nearest_to(places, here, sites[k], places.len() as int);
            assert(sites.contains(sites[k]));
            assert(is_own_site(board, player, sites[k]) && manhattan(sites[k], here) < 9999);
            assert forall|other: GridPosition| #[trigger]
                is_own_site(board, player, other) implies manhattan(sites[k], here) <= manhattan(
                other,
                here,
            ) by {
                assert(sites.contains(other));
            }
        },
        None => {
            assert forall|home: GridPosition| #[trigger]
                is_own_site(board, player, home) implies manhattan(home, here) >= 9999 by {
                assert(sites.contains(home));
            }
            lemma_nearest_to(places, here, here, places.len() as int);
            assert(manhattan(nearest_to(places, here, here, places.len() as int), here) == 0);
        },
    }
}

/// What comes next. A mission whose transport is gone is over, and so is one whose cargo is gone
/// before it was landed; neither moves on. A cargo that is aboard is carried; one that is no longer
/// aboard leaves the transport to go home. A transport that stands at most one step from where it
/// heads for lands its cargo. One on its way home is done when it stands on a building of its owner.
pub proof fn law_phase_follows_the_cargo(
    board: Board,
    map: GameMap,
    registry: MasterDataRegistry,
    islands: Seq<Island>,
    mission: TransportMission,
    i: int,
    j: int,
)
    requires
        is_row(board, i, mission.transport_entity),
        is_row(board, j, mission.cargo_entity),
    ensures
        ({
            let t = board.rows[i];
            let c = board.rows[j];
            let next = next_phase(board, map, registry, islands, mission);
            let carried = (t.cargo matches Some(hold) && hold.loaded@.contains(
                mission.cargo_entity,
            )) || c.transporting == Some(mission.transport_entity);
            let lost = t.position is None || (mission.phase != TransportPhase::Return
                && c.position is None);
            &&& is_void(board, mission) == lost
            &&& lost ==> next == mission.phase
            &&& !lost && mission.phase == TransportPhase::Pickup ==> next == (if carried {
                TransportPhase::Transit
            } else {
                TransportPhase::Pickup
            })
            &&& !lost && mission.phase == TransportPhase::Drop ==> next == (if carried {
                TransportPhase::Drop
            } else {
                TransportPhase::Return
            })
            &&& mission.phase == TransportPhase::Return ==> next == TransportPhase::Return
            &&& !lost && mission.phase == TransportPhase::Transit && !carried ==> next
                == TransportPhase::Return
            &&& !lost && mission.phase == TransportPhase::Transit && carried ==> {
                &&& next == TransportPhase::Transit || next == TransportPhase::Drop
                &&& forall|h: int| #[trigger]
                    is_target(islands, mission, h) && t.stats is Some ==> (next
                        == TransportPhase::Drop <==> (island_approach(
                        map,
                        registry,
                        islands[h].tiles@,
                        t.position->0,
                        t.stats->0.movement_type,
                    ) matches Some(goal) && manhattan(goal, t.position->0) <= 1))
                &&& (forall|h: int| !#[trigger] is_target(islands, mission, h)) ==> next
                    == TransportPhase::Transit
            }
            &&& is_home(board, mission) <==> (t.position is Some && t.faction is Some
                && is_own_site(board, t.faction->0, t.position->0))
        }),
{
    lemma_row(board, i, mission.transport_entity);
    lemma_row(board, j, mission.cargo_entity);
    assert forall|h: int| #[trigger] is_target(islands, mission, h) implies island_numbered(
        islands,
        islands[h].id,
        0,
    ) == Some(h) by {
        lemma_target(islands, islands[h].id, h, 0);
    }
    if forall|h: int| !#[trigger] is_target(islands, mission, h) {
        if let Some(id) = mission.target_island {
            lemma_numbered_from(islands, id, 0);
            if let Some(h) = island_numbered(islands, id, 0) {
                assert(is_target(islands, mission, h));
            }
        }
    }
    let t = board.rows[i];
    if let (Some(p), Some(player)) = (t.position, t.faction) {
        lemma_own_sites(board.rows@, player, board.rows.len() as int, p);
    }
}

} // verus!
