//! Transport missions: fetching a unit, carrying it to an island, landing it and coming home.
use crate::board::{row_of, Board, BoardRow};
use crate::entity::{contains_entity, Entity};
use crate::grid::{
    closest_within, contains_position, find_closest_within, gap, lemma_closest_within, manhattan,
    manhattan_distance, GameMap, GridPosition,
};
use crate::islands::{Island, IslandId, IslandMap};
use crate::master_data::MasterDataRegistry;
use crate::travel::{shorter, TravelTable, Traveller};
use crate::units::{MovementType, PlayerId, UnitStats};
use vstd::prelude::*;

verus! {

/// What a transport mission is doing.
#[derive(Clone, Copy, Debug, PartialEq, Eq, Hash, Structural)]
pub enum TransportPhase {
    /// On the way to the unit.
    Pickup,
    /// On the way to the island.
    Transit,
    /// Landing the unit.
    Drop,
    /// On the way home.
    Return,
}

/// One transport with one unit to carry.
#[derive(Clone, Copy, Debug, PartialEq, Eq, Structural)]
pub struct TransportMission {
    pub transport_entity: Entity,
    pub cargo_entity: Entity,
    pub phase: TransportPhase,
    pub target_island: Option<IslandId>,
}

/// All transport missions.
#[derive(Clone, Debug)]
pub struct TransportMissionManager {
    pub missions: Vec<TransportMission>,
}

impl Default for TransportMissionManager {
    fn default() -> (r: TransportMissionManager)
        ensures
            r.missions@.len() == 0,
    {
        TransportMissionManager { missions: Vec::new() }
    }
}

/// What a unit is told to do.
#[derive(Clone, Copy, Debug, PartialEq, Eq, Structural)]
pub enum AiCommand {
    /// Go there and stay.
    Wait { target_pos: GridPosition },
    /// Get into the transport.
    Load { transport_entity: Entity, target_pos: GridPosition },
    /// Go there and land the unit on a tile beside it.
    Drop {
        transport_target_pos: GridPosition,
        cargo_drop_pos: GridPosition,
        cargo_entity: Entity,
    },
}

/// Where the cargo can be landed from one place of the transport.
#[derive(Clone, Debug)]
pub struct DropRow {
    pub at: GridPosition,
    pub tiles: Vec<GridPosition>,
}

/// What the movement and transport rules say about one mission this turn.
#[derive(Clone, Debug)]
pub struct MissionOptions {
    /// The tiles that the transport can get to.
    pub reachable: Vec<GridPosition>,
    /// The tiles that the cargo can get to.
    pub cargo_reachable: Vec<GridPosition>,
    /// Where the cargo can be landed without moving the transport.
    pub drops_here: Vec<GridPosition>,
    /// Where the cargo can be landed after moving the transport.
    pub drops: Vec<DropRow>,
    /// How far it is.
    pub travel: TravelTable,
}

/// Distances from here on are too far to count.
pub const TOO_FAR: u128 = 9999;

/// The index of the first of the nearest candidates among the first `n`, if one is near enough.
pub open spec fn closest(cands: Seq<GridPosition>, from: GridPosition, n: int) -> Option<int> {
    closest_within(cands, from, TOO_FAR as nat, n)
}

fn find_closest(cands: &Vec<GridPosition>, from: GridPosition) -> (r: Option<usize>)
    ensures
        r is Some <==> closest(cands@, from, cands.len() as int) is Some,
        r matches Some(i) ==> closest(cands@, from, cands.len() as int) == Some(i as int) && i
            < cands.len(),
{
    find_closest_within(cands, from, TOO_FAR)
}

/// The tiles of the list that the way of moving can enter.
pub open spec fn enterable(
    map: GameMap,
    registry: MasterDataRegistry,
    movement_type: MovementType,
    near: Seq<GridPosition>,
    n: int,
) -> Seq<GridPosition>
    decreases n,
{
    if n <= 0 {
        Seq::empty()
    } else {
        let rest = enterable(map, registry, movement_type, near, n - 1);
        if can_enter(map, registry, movement_type, near[n - 1]) {
            rest.push(near[n - 1])
        } else {
            rest
        }
    }
}

/// The way of moving can enter the tile.
pub open spec fn can_enter(
    map: GameMap,
    registry: MasterDataRegistry,
    movement_type: MovementType,
    p: GridPosition,
) -> bool {
    map.terrain_at(p) matches Some(t) && registry.entry_cost(movement_type, t) is Some
}

/// Where the way of moving can dock: the tiles beside the first `n` island tiles that it can
/// enter.
pub open spec fn docks(
    map: GameMap,
    registry: MasterDataRegistry,
    movement_type: MovementType,
    tiles: Seq<GridPosition>,
    n: int,
) -> Seq<GridPosition>
    decreases n,
{
    if n <= 0 {
        Seq::empty()
    } else {
        let near = map.adjacent(tiles[n - 1]);
        docks(map, registry, movement_type, tiles, n - 1) + enterable(
            map,
            registry,
            movement_type,
            near,
            near.len() as int,
        )
    }
}

/// The tile is nearer, or as near and further left, or as near and as far left and further up.
pub open spec fn preferred(from: GridPosition, a: GridPosition, b: GridPosition) -> bool {
    let (da, db) = (manhattan(a, from), manhattan(b, from));
    da < db || (da == db && (a.x < b.x || (a.x == b.x && a.y < b.y)))
}

/// The preferred tile among the first `n`.
pub open spec fn nearest_tile(tiles: Seq<GridPosition>, from: GridPosition, n: int) -> Option<
    GridPosition,
>
    decreases n,
{
    if n <= 0 {
        None
    } else {
        match nearest_tile(tiles, from, n - 1) {
            Some(b) => if preferred(from, tiles[n - 1], b) {
                Some(tiles[n - 1])
            } else {
                Some(b)
            },
            None => Some(tiles[n - 1]),
        }
    }
}

/// No tile is this far from another.
pub const BEYOND_ALL: u128 = 0x2_0000_0000_0000_0000;

/// Where a transport heads for to serve an island: a ship for the closest dock, any other for the
/// nearest tile of the island itself.
pub open spec fn island_approach(
    map: GameMap,
    registry: MasterDataRegistry,
    tiles: Seq<GridPosition>,
    from: GridPosition,
    movement_type: MovementType,
) -> Option<GridPosition> {
    if movement_type == MovementType::Ship {
        let all = docks(map, registry, movement_type, tiles, tiles.len() as int);
        match closest_within(all, from, BEYOND_ALL as nat, all.len() as int) {
            Some(i) => Some(all[i]),
            None => None,
        }
    } else {
        nearest_tile(tiles, from, tiles.len() as int)
    }
}

fn find_docks(
    map: &GameMap,
    registry: &MasterDataRegistry,
    movement_type: MovementType,
    tiles: &Vec<GridPosition>,
) -> (r: Vec<GridPosition>)
    ensures
        r@ == docks(*map, *registry, movement_type, tiles@, tiles.len() as int),
{
    let mut r: Vec<GridPosition> = Vec::new();
    let mut n: usize = 0;
    while n < tiles.len()
        invariant
            n <= tiles.len(),
            r@ == docks(*map, *registry, movement_type, tiles@, n as int),
        decreases tiles.len() - n,
    {
        let tile = tiles[n];
        assert(tile == (GridPosition { x: tile.x, y: tile.y }));
        let near = map.get_adjacent(tile.x, tile.y);
        let ghost before = r@;
        let mut k: usize = 0;
        while k < near.len()
            invariant
                k <= near.len(),
                r@ == before + enterable(*map, *registry, movement_type, near@, k as int),
            decreases near.len() - k,
        {
            if enters(map, registry, movement_type, near[k]) {
                r.push(near[k]);
            }
            k += 1;
        }
        n += 1;
    }
    r
}

/// Whether the way of moving can enter the tile.
pub fn enters(
    map: &GameMap,
    registry: &MasterDataRegistry,
    movement_type: MovementType,
    p: GridPosition,
) -> (r: bool)
    ensures
        r == can_enter(*map, *registry, movement_type, p),
{
    assert(p == (GridPosition { x: p.x, y: p.y }));
    match map.get_terrain(p.x, p.y) {
        Some(terrain) => registry.get_valid_movement_cost(movement_type, terrain).is_some(),
        None => false,
    }
}

/// Where a transport heads for to serve an island.
pub fn get_target_position_for_island(
    map: &GameMap,
    registry: &MasterDataRegistry,
    island: &Island,
    t_pos: GridPosition,
    movement_type: MovementType,
) -> (r: Option<GridPosition>)
    ensures
        r == island_approach(*map, *registry, island.tiles@, t_pos, movement_type),
{
    if movement_type == MovementType::Ship {
        let all = find_docks(map, registry, movement_type, &island.tiles);
        match find_closest_within(&all, t_pos, BEYOND_ALL) {
            Some(i) => Some(all[i]),
            None => None,
        }
    } else {
        let mut best: Option<GridPosition> = None;
        let mut n: usize = 0;
        while n < island.tiles.len()
            invariant
                n <= island.tiles.len(),
                best == nearest_tile(island.tiles@, t_pos, n as int),
            decreases island.tiles.len() - n,
        {
            let tile = island.tiles[n];
            match best {
                Some(b) => {
                    let da: u128 = manhattan_distance(tile, t_pos);
                    let db: u128 = manhattan_distance(b, t_pos);
                    if da < db || (da == db && (tile.x < b.x || (tile.x == b.x && tile.y < b.y))) {
                        best = Some(tile);
                    }
                },
                None => {
                    best = Some(tile);
                },
            }
            n += 1;
        }
        best
    }
}

/// The first of the tiles among `start` and the first `n` candidates from which the journey to the
/// goal is shortest.
pub open spec fn quickest(
    travel: TravelTable,
    traveller: Traveller,
    cands: Seq<GridPosition>,
    start: GridPosition,
    goal: GridPosition,
    n: int,
) -> GridPosition
    decreases n,
{
    if n <= 0 {
        start
    } else {
        let best = quickest(travel, traveller, cands, start, goal, n - 1);
        if shorter(
            travel.turn_distance(traveller, cands[n - 1], goal),
            travel.turn_distance(traveller, best, goal),
        ) {
            cands[n - 1]
        } else {
            best
        }
    }
}

fn find_quickest(
    travel: &TravelTable,
    traveller: Traveller,
    cands: &Vec<GridPosition>,
    start: GridPosition,
    goal: GridPosition,
) -> (r: GridPosition)
    ensures
        r == quickest(*travel, traveller, cands@, start, goal, cands.len() as int),
{
    let mut best = start;
    let mut best_distance = travel.calculate_turn_distance(traveller, start, goal);
    let mut n: usize = 0;
    while n < cands.len()
        invariant
            n <= cands.len(),
            best == quickest(*travel, traveller, cands@, start, goal, n as int),
            best_distance == travel.turn_distance(traveller, best, goal),
        decreases cands.len() - n,
    {
        let d = travel.calculate_turn_distance(traveller, cands[n], goal);
        if d.is_shorter(best_distance) {
            best = cands[n];
            best_distance = d;
        }
        n += 1;
    }
    best
}

/// The first of the candidates among the first `n` from which the journey takes the fewest turns,
/// and these turns; `start` where no journey takes fewer than the greatest number of turns.
pub open spec fn fewest_turns(
    travel: TravelTable,
    traveller: Traveller,
    cands: Seq<GridPosition>,
    start: GridPosition,
    goal: GridPosition,
    n: int,
) -> (GridPosition, u32)
    decreases n,
{
    if n <= 0 {
        (start, u32::MAX)
    } else {
        let best = fewest_turns(travel, traveller, cands, start, goal, n - 1);
        let turns = travel.turn_distance(traveller, cands[n - 1], goal).turns;
        if turns < best.1 {
            (cands[n - 1], turns)
        } else {
            best
        }
    }
}

fn find_fewest_turns(
    travel: &TravelTable,
    traveller: Traveller,
    cands: &Vec<GridPosition>,
    start: GridPosition,
    goal: GridPosition,
) -> (r: GridPosition)
    ensures
        r == fewest_turns(*travel, traveller, cands@, start, goal, cands.len() as int).0,
{
    let mut best = start;
    let mut best_turns: u32 = u32::MAX;
    let mut n: usize = 0;
    while n < cands.len()
        invariant
            n <= cands.len(),
            (best, best_turns) == fewest_turns(*travel, traveller, cands@, start, goal, n as int),
        decreases cands.len() - n,
    {
        let turns: u32 = travel.calculate_turn_distance(traveller, cands[n], goal).turns;
        if turns < best_turns {
            best = cands[n];
            best_turns = turns;
        }
        n += 1;
    }
    best
}

/// The first of the tiles among `start` and the first `n` candidates that is nearest to the goal.
pub open spec fn nearest_to(
    cands: Seq<GridPosition>,
    start: GridPosition,
    goal: GridPosition,
    n: int,
) -> GridPosition
    decreases n,
{
    if n <= 0 {
        start
    } else {
        let best = nearest_to(cands, start, goal, n - 1);
        if manhattan(cands[n - 1], goal) < manhattan(best, goal) {
            cands[n - 1]
        } else {
            best
        }
    }
}

fn find_nearest_to(cands: &Vec<GridPosition>, start: GridPosition, goal: GridPosition) -> (r:
    GridPosition)
    ensures
        r == nearest_to(cands@, start, goal, cands.len() as int),
{
    let mut best = start;
    let mut n: usize = 0;
    while n < cands.len()
        invariant
            n <= cands.len(),
            best == nearest_to(cands@, start, goal, n as int),
        decreases cands.len() - n,
    {
        if manhattan_distance(cands[n], goal) < manhattan_distance(best, goal) {
            best = cands[n];
        }
        n += 1;
    }
    best
}

/// The row of an entity.
pub open spec fn row(board: Board, e: Entity) -> Option<BoardRow> {
    match row_of(board.rows@, e, 0) {
        Some(i) => Some(board.rows[i]),
        None => None,
    }
}

/// Where an entity stands.
pub open spec fn position_of(board: Board, e: Entity) -> Option<GridPosition> {
    match row(board, e) {
        Some(r) => r.position,
        None => None,
    }
}

/// The stats of an entity.
pub open spec fn stats_of_unit(board: Board, e: Entity) -> Option<UnitStats> {
    match row(board, e) {
        Some(r) => r.stats,
        None => None,
    }
}

/// The entity has acted this turn.
pub open spec fn has_acted(board: Board, e: Entity) -> bool {
    row(board, e) matches Some(r) && r.action_completed == Some(true)
}

/// A transport that can act: where it is and how it travels.
#[derive(Clone, Copy, Debug, PartialEq, Eq, Structural)]
pub struct Carrier {
    pub position: GridPosition,
    pub traveller: Traveller,
}

/// The transport that an entity is: it needs a position, stats, fuel and an owner.
pub open spec fn carrier_of(board: Board, e: Entity) -> Option<Carrier> {
    match row(board, e) {
        Some(r) => match (r.position, r.stats, r.fuel, r.faction) {
            (Some(position), Some(stats), Some(fuel), Some(player_id)) => Some(
                Carrier {
                    position,
                    traveller: Traveller {
                        player_id,
                        movement_type: stats.movement_type,
                        max_movement: stats.max_movement,
                    },
                },
            ),
            _ => None,
        },
        None => None,
    }
}

/// The index of the first island from index `i` on that holds the tile.
pub open spec fn island_holding(islands: Seq<Island>, p: GridPosition, i: int) -> Option<int>
    decreases islands.len() - i,
{
    if i >= islands.len() {
        None
    } else if islands[i].tiles@.contains(p) {
        Some(i)
    } else {
        island_holding(islands, p, i + 1)
    }
}

/// The index of the first island from index `i` on with the number.
pub open spec fn island_numbered(islands: Seq<Island>, id: IslandId, i: int) -> Option<int>
    decreases islands.len() - i,
{
    if i >= islands.len() {
        None
    } else if islands[i].id == id {
        Some(i)
    } else {
        island_numbered(islands, id, i + 1)
    }
}

/// Finds the first island that holds the tile.
pub fn find_island_holding(islands: &IslandMap, p: GridPosition) -> (r: Option<usize>)
    ensures
        r is Some <==> island_holding(islands.islands@, p, 0) is Some,
        r matches Some(i) ==> island_holding(islands.islands@, p, 0) == Some(i as int) && i
            < islands.islands.len() && islands.islands[i as int].tiles@.contains(p),
{
    let mut i: usize = 0;
    while i < islands.islands.len()
        invariant
            i <= islands.islands.len(),
            island_holding(islands.islands@, p, 0) == island_holding(
                islands.islands@,
                p,
                i as int,
            ),
        decreases islands.islands.len() - i,
    {
        if contains_position(&islands.islands[i].tiles, p) {
            return Some(i);
        }
        i += 1;
    }
    None
}

/// Finds the first island with the number.
pub fn find_island_numbered(islands: &IslandMap, id: IslandId) -> (r: Option<usize>)
    ensures
        r is Some <==> island_numbered(islands.islands@, id, 0) is Some,
        r matches Some(i) ==> island_numbered(islands.islands@, id, 0) == Some(i as int) && i
            < islands.islands.len() && islands.islands[i as int].id == id,
{
    let mut i: usize = 0;
    while i < islands.islands.len()
        invariant
            i <= islands.islands.len(),
            island_numbered(islands.islands@, id, 0) == island_numbered(
                islands.islands@,
                id,
                i as int,
            ),
        decreases islands.islands.len() - i,
    {
        if islands.islands[i].id == id {
            return Some(i);
        }
        i += 1;
    }
    None
}

/// Both ways of moving can enter the tile, and it lies on the island, if one is given.
pub open spec fn can_meet(
    map: GameMap,
    registry: MasterDataRegistry,
    a: MovementType,
    b: MovementType,
    island: Option<Seq<GridPosition>>,
    p: GridPosition,
) -> bool {
    (island matches Some(tiles) ==> tiles.contains(p)) && can_enter(map, registry, a, p)
        && can_enter(map, registry, b, p)
}

/// The meeting tiles among the first `n` rows of column `x`.
pub open spec fn meetup_column(
    map: GameMap,
    registry: MasterDataRegistry,
    a: MovementType,
    b: MovementType,
    island: Option<Seq<GridPosition>>,
    x: int,
    n: int,
) -> Seq<GridPosition>
    decreases n,
{
    if n <= 0 {
        Seq::empty()
    } else {
        let rest = meetup_column(map, registry, a, b, island, x, n - 1);
        let p = GridPosition { x: x as usize, y: (n - 1) as usize };
        if can_meet(map, registry, a, b, island, p) {
            rest.push(p)
        } else {
            rest
        }
    }
}

/// The meeting tiles of the first `n` columns.
pub open spec fn meetup_tiles(
    map: GameMap,
    registry: MasterDataRegistry,
    a: MovementType,
    b: MovementType,
    island: Option<Seq<GridPosition>>,
    n: int,
) -> Seq<GridPosition>
    decreases n,
{
    if n <= 0 {
        Seq::empty()
    } else {
        meetup_tiles(map, registry, a, b, island, n - 1) + meetup_column(
            map,
            registry,
            a,
            b,
            island,
            n - 1,
            map.height as int,
        )
    }
}

/// The two units meet sooner at `p` than at `q`: their ways are shorter in sum, or as long in sum
/// and more alike.
pub open spec fn meets_better(
    t: GridPosition,
    c: GridPosition,
    p: GridPosition,
    q: GridPosition,
) -> bool {
    let (tp, cp) = (manhattan(t, p), manhattan(c, p));
    let (tq, cq) = (manhattan(t, q), manhattan(c, q));
    tp + cp < tq + cq || (tp + cp == tq + cq && gap(tp as int, cp as int) < gap(
        tq as int,
        cq as int,
    ))
}

/// The first of the best meeting tiles among the first `n`.
pub open spec fn best_meetup(
    tiles: Seq<GridPosition>,
    t: GridPosition,
    c: GridPosition,
    n: int,
) -> Option<GridPosition>
    decreases n,
{
    if n <= 0 {
        None
    } else {
        match best_meetup(tiles, t, c, n - 1) {
            Some(b) => if meets_better(t, c, tiles[n - 1], b) {
                Some(tiles[n - 1])
            } else {
                Some(b)
            },
            None => Some(tiles[n - 1]),
        }
    }
}

/// Where the transport and its cargo meet: a ship docks at the cargo's island, unless all docks are
/// too far; any other meets it on a tile of that island that both can enter. Failing that, where the
/// cargo stands.
pub open spec fn meetup_point(
    map: GameMap,
    registry: MasterDataRegistry,
    islands: Seq<Island>,
    carrier: Carrier,
    cargo_stats: Option<UnitStats>,
    cargo_pos: GridPosition,
) -> GridPosition {
    let movement_type = carrier.traveller.movement_type;
    let home = island_holding(islands, cargo_pos, 0);
    if movement_type == MovementType::Ship {
        match home {
            Some(i) => {
                let tiles = islands[i].tiles@;
                let all = docks(map, registry, movement_type, tiles, tiles.len() as int);
                match closest(all, carrier.position, all.len() as int) {
                    Some(k) => all[k],
                    None => cargo_pos,
                }
            },
            None => cargo_pos,
        }
    } else {
        match cargo_stats {
            Some(stats) => {
                let tiles = meetup_tiles(
                    map,
                    registry,
                    movement_type,
                    stats.movement_type,
                    match home {
                        Some(i) => Some(islands[i].tiles@),
                        None => None,
                    },
                    map.width as int,
                );
                match best_meetup(tiles, carrier.position, cargo_pos, tiles.len() as int) {
                    Some(p) => p,
                    None => cargo_pos,
                }
            },
            None => cargo_pos,
        }
    }
}

/// What the cargo does while it waits to be fetched: it gets in where the transport stands at the
/// meeting point and is within its reach or beside it, and goes there otherwise.
pub open spec fn cargo_commands(
    options: MissionOptions,
    mission: TransportMission,
    carrier: Carrier,
    cargo_stats: Option<UnitStats>,
    cargo_pos: GridPosition,
    meetup: GridPosition,
) -> Seq<(Entity, AiCommand)> {
    match cargo_stats {
        Some(stats) => {
            let t_pos = carrier.position;
            let waiting = manhattan(t_pos, meetup) == 0;
            if waiting && (options.cargo_reachable@.contains(t_pos) || manhattan(cargo_pos, t_pos)
                <= 1) {
                seq![
                    (
                        mission.cargo_entity,
                        AiCommand::Load {
                            transport_entity: mission.transport_entity,
                            target_pos: t_pos,
                        },
                    ),
                ]
            } else {
                let traveller = Traveller {
                    player_id: carrier.traveller.player_id,
                    movement_type: stats.movement_type,
                    max_movement: stats.max_movement,
                };
                let goal = if waiting {
                    t_pos
                } else {
                    meetup
                };
                seq![
                    (
                        mission.cargo_entity,
                        AiCommand::Wait {
                            target_pos: quickest(
                                options.travel,
                                traveller,
                                options.cargo_reachable@,
                                cargo_pos,
                                goal,
                                options.cargo_reachable.len() as int,
                            ),
                        },
                    ),
                ]
            }
        },
        None => Seq::empty(),
    }
}

/// What transport and cargo do while the cargo is being fetched. A unit that has acted does
/// nothing; if neither can act, the transport stays.
pub open spec fn pickup_commands(
    board: Board,
    options: MissionOptions,
    mission: TransportMission,
    carrier: Carrier,
    cargo_pos: GridPosition,
    meetup: GridPosition,
) -> Seq<(Entity, AiCommand)> {
    let first: Seq<(Entity, AiCommand)> = if has_acted(board, mission.transport_entity) {
        Seq::empty()
    } else {
        seq![
            (
                mission.transport_entity,
                AiCommand::Wait {
                    target_pos: quickest(
                        options.travel,
                        carrier.traveller,
                        options.reachable@,
                        carrier.position,
                        meetup,
                        options.reachable.len() as int,
                    ),
                },
            ),
        ]
    };
    let second: Seq<(Entity, AiCommand)> = if has_acted(board, mission.cargo_entity) {
        Seq::empty()
    } else {
        cargo_commands(
            options,
            mission,
            carrier,
            stats_of_unit(board, mission.cargo_entity),
            cargo_pos,
            meetup,
        )
    };
    let all = first + second;
    if all.len() == 0 {
        seq![
            (mission.transport_entity, AiCommand::Wait { target_pos: carrier.position }),
        ]
    } else {
        all
    }
}

/// Where the cargo can be landed from the place, by the first row from index `i` on.
pub open spec fn drops_at(rows: Seq<DropRow>, p: GridPosition, i: int) -> Seq<GridPosition>
    decreases rows.len() - i,
{
    if i >= rows.len() {
        Seq::empty()
    } else if rows[i].at == p {
        rows[i].tiles@
    } else {
        drops_at(rows, p, i + 1)
    }
}

/// The landings from one place among the first `n` tiles that lie on the island.
pub open spec fn landings_from(
    at: GridPosition,
    drops: Seq<GridPosition>,
    island: Seq<GridPosition>,
    n: int,
) -> Seq<(GridPosition, GridPosition)>
    decreases n,
{
    if n <= 0 {
        Seq::empty()
    } else {
        let rest = landings_from(at, drops, island, n - 1);
        if island.contains(drops[n - 1]) {
            rest.push((at, drops[n - 1]))
        } else {
            rest
        }
    }
}

/// All landings on the island from the first `n` places.
pub open spec fn landings(
    rows: Seq<DropRow>,
    places: Seq<GridPosition>,
    island: Seq<GridPosition>,
    n: int,
) -> Seq<(GridPosition, GridPosition)>
    decreases n,
{
    if n <= 0 {
        Seq::empty()
    } else {
        let drops = drops_at(rows, places[n - 1], 0);
        landings(rows, places, island, n - 1) + landings_from(
            places[n - 1],
            drops,
            island,
            drops.len() as int,
        )
    }
}

/// The first landing from each of the first `n` places that has one.
pub open spec fn first_landings(
    rows: Seq<DropRow>,
    places: Seq<GridPosition>,
    n: int,
) -> Seq<(GridPosition, GridPosition)>
    decreases n,
{
    if n <= 0 {
        Seq::empty()
    } else {
        let rest = first_landings(rows, places, n - 1);
        let drops = drops_at(rows, places[n - 1], 0);
        if drops.len() > 0 {
            rest.push((places[n - 1], drops[0]))
        } else {
            rest
        }
    }
}

/// The places of the landings.
pub open spec fn places_of(pairs: Seq<(GridPosition, GridPosition)>) -> Seq<GridPosition> {
    Seq::new(pairs.len(), |i: int| pairs[i].0)
}

/// The landing whose place is closest.
pub open spec fn closest_landing(
    pairs: Seq<(GridPosition, GridPosition)>,
    from: GridPosition,
) -> Option<(GridPosition, GridPosition)> {
    match closest(places_of(pairs), from, pairs.len() as int) {
        Some(i) => Some(pairs[i]),
        None => None,
    }
}

/// The command to land the cargo.
pub open spec fn drop_command(
    mission: TransportMission,
    at: GridPosition,
    tile: GridPosition,
) -> Seq<(Entity, AiCommand)> {
    seq![
        (
            mission.transport_entity,
            AiCommand::Drop {
                transport_target_pos: at,
                cargo_drop_pos: tile,
                cargo_entity: mission.cargo_entity,
            },
        ),
    ]
}

/// The command to go somewhere.
pub open spec fn go_command(mission: TransportMission, to: GridPosition) -> Seq<
    (Entity, AiCommand),
> {
    seq![(mission.transport_entity, AiCommand::Wait { target_pos: to })]
}

/// What the transport does on its way to the island: it lands the cargo on the island at once if
/// it can, from the closest place, and goes on otherwise.
pub open spec fn transit_commands(
    map: GameMap,
    registry: MasterDataRegistry,
    options: MissionOptions,
    mission: TransportMission,
    carrier: Carrier,
    island: Seq<GridPosition>,
) -> Seq<(Entity, AiCommand)> {
    match island_approach(
        map,
        registry,
        island,
        carrier.position,
        carrier.traveller.movement_type,
    ) {
        Some(goal) => {
            let pairs = landings(
                options.drops@,
                options.reachable@,
                island,
                options.reachable.len() as int,
            );
            match closest_landing(pairs, carrier.position) {
                Some((at, tile)) => drop_command(mission, at, tile),
                None => go_command(
                    mission,
                    fewest_turns(
                        options.travel,
                        carrier.traveller,
                        options.reachable@,
                        carrier.position,
                        goal,
                        options.reachable.len() as int,
                    ).0,
                ),
            }
        },
        None => Seq::empty(),
    }
}

/// Where the transport heads for to serve its target island, if that is known.
pub open spec fn mission_approach(
    map: GameMap,
    registry: MasterDataRegistry,
    islands: Seq<Island>,
    mission: TransportMission,
    from: GridPosition,
    movement_type: MovementType,
) -> Option<GridPosition> {
    match mission.target_island {
        Some(id) => match island_numbered(islands, id, 0) {
            Some(i) => island_approach(map, registry, islands[i].tiles@, from, movement_type),
            None => None,
        },
        None => None,
    }
}

/// What the transport does when it is to land the cargo: from where it stands if it can, else from
/// the closest place from which it can; failing both it gets nearer to the island, or stays.
pub open spec fn landing_commands(
    map: GameMap,
    registry: MasterDataRegistry,
    islands: Seq<Island>,
    options: MissionOptions,
    mission: TransportMission,
    carrier: Carrier,
) -> Seq<(Entity, AiCommand)> {
    let from = carrier.position;
    if options.drops_here.len() > 0 {
        drop_command(mission, from, options.drops_here[0])
    } else {
        let pairs = first_landings(
            options.drops@,
            options.reachable@,
            options.reachable.len() as int,
        );
        match closest_landing(pairs, from) {
            Some((at, tile)) => drop_command(mission, at, tile),
            None => match mission_approach(
                map,
                registry,
                islands,
                mission,
                from,
                carrier.traveller.movement_type,
            ) {
                Some(goal) => go_command(
                    mission,
                    nearest_to(options.reachable@, from, goal, options.reachable.len() as int),
                ),
                None => go_command(mission, from),
            },
        }
    }
}

/// Where the buildings of the player among the first `n` rows stand.
pub open spec fn own_sites(rows: Seq<BoardRow>, player: PlayerId, n: int) -> Seq<GridPosition>
    decreases n,
{
    if n <= 0 {
        Seq::empty()
    } else {
        let rest = own_sites(rows, player, n - 1);
        match (rows[n - 1].position, rows[n - 1].property) {
            (Some(p), Some(property)) => if property.owner_id == Some(player) {
                rest.push(p)
            } else {
                rest
            },
            _ => rest,
        }
    }
}

/// What the transport does on its way home: it gets nearer to the closest own building.
pub open spec fn return_commands(
    board: Board,
    options: MissionOptions,
    mission: TransportMission,
    carrier: Carrier,
) -> Seq<(Entity, AiCommand)> {
    let sites = own_sites(board.rows@, carrier.traveller.player_id, board.rows.len() as int);
    let home = match closest(sites, carrier.position, sites.len() as int) {
        Some(i) => sites[i],
        None => carrier.position,
    };
    go_command(
        mission,
        nearest_to(options.reachable@, carrier.position, home, options.reachable.len() as int),
    )
}

/// The commands of one step of a mission.
pub open spec fn mission_commands(
    board: Board,
    map: GameMap,
    registry: MasterDataRegistry,
    islands: Seq<Island>,
    options: MissionOptions,
    mission: TransportMission,
) -> Seq<(Entity, AiCommand)> {
    match carrier_of(board, mission.transport_entity) {
        Some(carrier) => match mission.phase {
            TransportPhase::Pickup => match position_of(board, mission.cargo_entity) {
                Some(cargo_pos) => pickup_commands(
                    board,
                    options,
                    mission,
                    carrier,
                    cargo_pos,
                    meetup_point(
                        map,
                        registry,
                        islands,
                        carrier,
                        stats_of_unit(board, mission.cargo_entity),
                        cargo_pos,
                    ),
                ),
                None => Seq::empty(),
            },
            TransportPhase::Transit => match mission.target_island {
                Some(id) => match island_numbered(islands, id, 0) {
                    Some(i) => transit_commands(
                        map,
                        registry,
                        options,
                        mission,
                        carrier,
                        islands[i].tiles@,
                    ),
                    None => Seq::empty(),
                },
                None => Seq::empty(),
            },
            TransportPhase::Drop => landing_commands(
                map,
                registry,
                islands,
                options,
                mission,
                carrier,
            ),
            TransportPhase::Return => return_commands(board, options, mission, carrier),
        },
        None => Seq::empty(),
    }
}

fn find_carrier(board: &Board, e: Entity) -> (r: Option<Carrier>)
    ensures
        r == carrier_of(*board, e),
{
    match board.find(e) {
        Some(i) => {
            let position = match board.rows[i].position {
                Some(p) => p,
                None => {
                    return None;
                },
            };
            if board.rows[i].fuel.is_none() {
                return None;
            }
            let player_id = match board.rows[i].faction {
                Some(f) => f,
                None => {
                    return None;
                },
            };
            match &board.rows[i].stats {
                Some(stats) => Some(
                    Carrier {
                        position,
                        traveller: Traveller {
                            player_id,
                            movement_type: stats.movement_type,
                            max_movement: stats.max_movement,
                        },
                    },
                ),
                None => None,
            }
        },
        None => None,
    }
}

fn find_position(board: &Board, e: Entity) -> (r: Option<GridPosition>)
    ensures
        r == position_of(*board, e),
{
    match board.find(e) {
        Some(i) => board.rows[i].position,
        None => None,
    }
}

fn find_stats(board: &Board, e: Entity) -> (r: Option<&UnitStats>)
    ensures
        match r {
            Some(stats) => stats_of_unit(*board, e) == Some(*stats),
            None => stats_of_unit(*board, e) is None,
        },
{
    match board.find(e) {
        Some(i) => match &board.rows[i].stats {
            Some(stats) => Some(stats),
            None => None,
        },
        None => None,
    }
}

fn acted(board: &Board, e: Entity) -> (r: bool)
    ensures
        r == has_acted(*board, e),
{
    match board.find(e) {
        Some(i) => match board.rows[i].action_completed {
            Some(done) => done,
            None => false,
        },
        None => false,
    }
}

fn find_meetup(
    map: &GameMap,
    registry: &MasterDataRegistry,
    islands: &IslandMap,
    carrier: Carrier,
    cargo_stats: Option<&UnitStats>,
    cargo_pos: GridPosition,
) -> (r: GridPosition)
    ensures
        r == meetup_point(
            *map,
            *registry,
            islands.islands@,
            carrier,
            match cargo_stats {
                Some(stats) => Some(*stats),
                None => None,
            },
            cargo_pos,
        ),
{
    let movement_type = carrier.traveller.movement_type;
    let home = find_island_holding(islands, cargo_pos);
    if movement_type == MovementType::Ship {
        match home {
            Some(i) => {
                let all = find_docks(map, registry, movement_type, &islands.islands[i].tiles);
                match find_closest(&all, carrier.position) {
                    Some(k) => all[k],
                    None => cargo_pos,
                }
            },
            None => cargo_pos,
        }
    } else {
        match cargo_stats {
            Some(stats) => {
                let tiles = match home {
                    Some(i) => find_meetup_tiles(
                        map,
                        registry,
                        movement_type,
                        stats.movement_type,
                        Some(&islands.islands[i].tiles),
                    ),
                    None => find_meetup_tiles(
                        map,
                        registry,
                        movement_type,
                        stats.movement_type,
                        None,
                    ),
                };
                match find_best_meetup(&tiles, carrier.position, cargo_pos) {
                    Some(p) => p,
                    None => cargo_pos,
                }
            },
            None => cargo_pos,
        }
    }
}

fn meets_sooner(t: GridPosition, c: GridPosition, p: GridPosition, q: GridPosition) -> (r: bool)
    ensures
        r == meets_better(t, c, p, q),
{
    let tp: u128 = manhattan_distance(t, p);
    let cp: u128 = manhattan_distance(c, p);
    let tq: u128 = manhattan_distance(t, q);
    let cq: u128 = manhattan_distance(c, q);
    let dp: u128 = if tp <= cp { cp - tp } else { tp - cp };
    let dq: u128 = if tq <= cq { cq - tq } else { tq - cq };
    tp + cp < tq + cq || (tp + cp == tq + cq && dp < dq)
}

fn find_best_meetup(tiles: &Vec<GridPosition>, t: GridPosition, c: GridPosition) -> (r: Option<
    GridPosition,
>)
    ensures
        r == best_meetup(tiles@, t, c, tiles.len() as int),
{
    let mut best: Option<GridPosition> = None;
    let mut n: usize = 0;
    while n < tiles.len()
        invariant
            n <= tiles.len(),
            best == best_meetup(tiles@, t, c, n as int),
        decreases tiles.len() - n,
    {
        let p = tiles[n];
        match best {
            Some(q) => {
                if meets_sooner(t, c, p, q) {
                    best = Some(p);
                }
            },
            None => {
                best = Some(p);
            },
        }
        n += 1;
    }
    best
}

fn find_meetup_tiles(
    map: &GameMap,
    registry: &MasterDataRegistry,
    a: MovementType,
    b: MovementType,
    island: Option<&Vec<GridPosition>>,
) -> (r: Vec<GridPosition>)
    ensures
        r@ == meetup_tiles(
            *map,
            *registry,
            a,
            b,
            match island {
                Some(tiles) => Some(tiles@),
                None => None,
            },
            map.width as int,
        ),
{
    let ghost home: Option<Seq<GridPosition>> = match island {
        Some(tiles) => Some(tiles@),
        None => None,
    };
    let mut r: Vec<GridPosition> = Vec::new();
    let mut x: usize = 0;
    while x < map.width
        invariant
            x <= map.width,
            home == (match island {
                Some(tiles) => Some(tiles@),
                None => None,
            }),
            r@ == meetup_tiles(*map, *registry, a, b, home, x as int),
        decreases map.width - x,
    {
        let ghost before = r@;
        let mut y: usize = 0;
        while y < map.height
            invariant
                y <= map.height,
                home == (match island {
                    Some(tiles) => Some(tiles@),
                    None => None,
                }),
                r@ == before + meetup_column(*map, *registry, a, b, home, x as int, y as int),
            decreases map.height - y,
        {
            let p = GridPosition { x, y };
            let inside: bool = match island {
                Some(tiles) => contains_position(tiles, p),
                None => true,
            };
            if inside && enters(map, registry, a, p) && enters(map, registry, b, p) {
                r.push(p);
            }
            y += 1;
        }
        x += 1;
    }
    r
}

fn find_drops(rows: &Vec<DropRow>, p: GridPosition) -> (r: Option<usize>)
    ensures
        r matches Some(i) ==> i < rows.len() && drops_at(rows@, p, 0) == rows[i as int].tiles@,
        r is None ==> drops_at(rows@, p, 0) == Seq::<GridPosition>::empty(),
{
    let mut i: usize = 0;
    while i < rows.len()
        invariant
            i <= rows.len(),
            drops_at(rows@, p, 0) == drops_at(rows@, p, i as int),
        decreases rows.len() - i,
    {
        if rows[i].at == p {
            return Some(i);
        }
        i += 1;
    }
    None
}

fn find_landings(
    rows: &Vec<DropRow>,
    places: &Vec<GridPosition>,
    island: &Vec<GridPosition>,
) -> (r: Vec<(GridPosition, GridPosition)>)
    ensures
        r@ == landings(rows@, places@, island@, places.len() as int),
{
    let mut r: Vec<(GridPosition, GridPosition)> = Vec::new();
    let mut n: usize = 0;
    while n < places.len()
        invariant
            n <= places.len(),
            r@ == landings(rows@, places@, island@, n as int),
        decreases places.len() - n,
    {
        let at = places[n];
        let ghost before = r@;
        if let Some(i) = find_drops(rows, at) {
            let mut k: usize = 0;
            while k < rows[i].tiles.len()
                invariant
                    i < rows.len(),
                    k <= rows[i as int].tiles.len(),
                    r@ == before + landings_from(at, rows[i as int].tiles@, island@, k as int),
                decreases rows[i as int].tiles.len() - k,
            {
                let tile = rows[i].tiles[k];
                if contains_position(island, tile) {
                    r.push((at, tile));
                }
                k += 1;
            }
        }
        assert(r@ =~= landings(rows@, places@, island@, n + 1));
        n += 1;
    }
    r
}

fn find_first_landings(rows: &Vec<DropRow>, places: &Vec<GridPosition>) -> (r: Vec<
    (GridPosition, GridPosition),
>)
    ensures
        r@ == first_landings(rows@, places@, places.len() as int),
{
    let mut r: Vec<(GridPosition, GridPosition)> = Vec::new();
    let mut n: usize = 0;
    while n < places.len()
        invariant
            n <= places.len(),
            r@ == first_landings(rows@, places@, n as int),
        decreases places.len() - n,
    {
        if let Some(i) = find_drops(rows, places[n]) {
            if rows[i].tiles.len() > 0 {
                r.push((places[n], rows[i].tiles[0]));
            }
        }
        n += 1;
    }
    r
}

fn find_closest_landing(pairs: &Vec<(GridPosition, GridPosition)>, from: GridPosition) -> (r: Option<
    (GridPosition, GridPosition),
>)
    ensures
        r == closest_landing(pairs@, from),
{
    let mut places: Vec<GridPosition> = Vec::new();
    let mut n: usize = 0;
    while n < pairs.len()
        invariant
            n <= pairs.len(),
            places.len() == n,
            forall|i: int| 0 <= i < n ==> #[trigger] places[i] == pairs[i].0,
        decreases pairs.len() - n,
    {
        places.push(pairs[n].0);
        n += 1;
    }
    assert(places@ =~= places_of(pairs@));
    match find_closest(&places, from) {
        Some(i) => Some(pairs[i]),
        None => None,
    }
}

fn go(mission: &TransportMission, to: GridPosition) -> (r: Vec<(Entity, AiCommand)>)
    ensures
        r@ == go_command(*mission, to),
{
    let mut r: Vec<(Entity, AiCommand)> = Vec::new();
    r.push((mission.transport_entity, AiCommand::Wait { target_pos: to }));
    r
}

fn land(mission: &TransportMission, at: GridPosition, tile: GridPosition) -> (r: Vec<
    (Entity, AiCommand),
>)
    ensures
        r@ == drop_command(*mission, at, tile),
{
    let mut r: Vec<(Entity, AiCommand)> = Vec::new();
    r.push(
        (
            mission.transport_entity,
            AiCommand::Drop {
                transport_target_pos: at,
                cargo_drop_pos: tile,
                cargo_entity: mission.cargo_entity,
            },
        ),
    );
    r
}

fn pickup_step(
    board: &Board,
    options: &MissionOptions,
    mission: &TransportMission,
    carrier: Carrier,
    cargo_pos: GridPosition,
    meetup: GridPosition,
) -> (r: Vec<(Entity, AiCommand)>)
    ensures
        r@ == pickup_commands(*board, *options, *mission, carrier, cargo_pos, meetup),
{
    let mut r: Vec<(Entity, AiCommand)> = Vec::new();
    let t_pos = carrier.position;
    if !acted(board, mission.transport_entity) {
        let to = find_quickest(
            &options.travel,
            carrier.traveller,
            &options.reachable,
            t_pos,
            meetup,
        );
        r.push((mission.transport_entity, AiCommand::Wait { target_pos: to }));
    }
    if !acted(board, mission.cargo_entity) {
        if let Some(stats) = find_stats(board, mission.cargo_entity) {
            let waiting: bool = manhattan_distance(t_pos, meetup) == 0;
            if waiting && (contains_position(&options.cargo_reachable, t_pos)
                || manhattan_distance(cargo_pos, t_pos) <= 1) {
                r.push(
                    (
                        mission.cargo_entity,
                        AiCommand::Load {
                            transport_entity: mission.transport_entity,
                            target_pos: t_pos,
                        },
                    ),
                );
            } else {
                let traveller = Traveller {
                    player_id: carrier.traveller.player_id,
                    movement_type: stats.movement_type,
                    max_movement: stats.max_movement,
                };
                let goal = if waiting {
                    t_pos
                } else {
                    meetup
                };
                let to = find_quickest(
                    &options.travel,
                    traveller,
                    &options.cargo_reachable,
                    cargo_pos,
                    goal,
                );
                r.push((mission.cargo_entity, AiCommand::Wait { target_pos: to }));
            }
        }
    }
    if r.len() == 0 {
        r.push((mission.transport_entity, AiCommand::Wait { target_pos: t_pos }));
    }
    assert(r@ =~= pickup_commands(*board, *options, *mission, carrier, cargo_pos, meetup));
    r
}

fn find_own_sites(board: &Board, player: PlayerId) -> (r: Vec<GridPosition>)
    ensures
        r@ == own_sites(board.rows@, player, board.rows.len() as int),
{
    let mut r: Vec<GridPosition> = Vec::new();
    let mut n: usize = 0;
    while n < board.rows.len()
        invariant
            n <= board.rows.len(),
            r@ == own_sites(board.rows@, player, n as int),
        decreases board.rows.len() - n,
    {
        if let Some(p) = board.rows[n].position {
            if let Some(property) = board.rows[n].property {
                if let Some(owner) = property.owner_id {
                    if owner == player {
                        r.push(p);
                    }
                }
            }
        }
        n += 1;
    }
    r
}

/// One step of a transport mission: what the transport and its cargo are told to do this turn.
pub fn execute_mission_step(
    board: &Board,
    map: &GameMap,
    registry: &MasterDataRegistry,
    islands: &IslandMap,
    options: &MissionOptions,
    mission: &TransportMission,
) -> (r: Vec<(Entity, AiCommand)>)
    ensures
        r@ == mission_commands(*board, *map, *registry, islands.islands@, *options, *mission),
{
    let carrier = match find_carrier(board, mission.transport_entity) {
        Some(c) => c,
        None => {
            return Vec::new();
        },
    };
    let from = carrier.position;
    let movement_type = carrier.traveller.movement_type;
    let island = match mission.target_island {
        Some(id) => find_island_numbered(islands, id),
        None => None,
    };
    match mission.phase {
        TransportPhase::Pickup => {
            match find_position(board, mission.cargo_entity) {
                Some(cargo_pos) => {
                    let meetup = find_meetup(
                        map,
                        registry,
                        islands,
                        carrier,
                        find_stats(board, mission.cargo_entity),
                        cargo_pos,
                    );
                    pickup_step(board, options, mission, carrier, cargo_pos, meetup)
                },
                None => Vec::new(),
            }
        },
        TransportPhase::Transit => {
            match island {
                Some(i) => {
                    let goal = match get_target_position_for_island(
                        map,
                        registry,
                        &islands.islands[i],
                        from,
                        movement_type,
                    ) {
                        Some(p) => p,
                        None => {
                            return Vec::new();
                        },
                    };
                    let pairs = find_landings(
                        &options.drops,
                        &options.reachable,
                        &islands.islands[i].tiles,
                    );
                    match find_closest_landing(&pairs, from) {
                        Some((at, tile)) => land(mission, at, tile),
                        None => go(
                            mission,
                            find_fewest_turns(
                                &options.travel,
                                carrier.traveller,
                                &options.reachable,
                                from,
                                goal,
                            ),
                        ),
                    }
                },
                None => Vec::new(),
            }
        },
        TransportPhase::Drop => {
            if options.drops_here.len() > 0 {
                return land(mission, from, options.drops_here[0]);
            }
            let pairs = find_first_landings(&options.drops, &options.reachable);
            match find_closest_landing(&pairs, from) {
                Some((at, tile)) => land(mission, at, tile),
                None => {
                    let goal = match island {
                        Some(i) => get_target_position_for_island(
                            map,
                            registry,
                            &islands.islands[i],
                            from,
                            movement_type,
                        ),
                        None => None,
                    };
                    match goal {
                        Some(p) => go(mission, find_nearest_to(&options.reachable, from, p)),
                        None => go(mission, from),
                    }
                },
            }
        },
        TransportPhase::Return => {
            let sites = find_own_sites(board, carrier.traveller.player_id);
            let home = match find_closest(&sites, from) {
                Some(i) => sites[i],
                None => from,
            };
            go(mission, find_nearest_to(&options.reachable, from, home))
        },
    }
}

/// The cargo is aboard: the transport lists it, or it says that the transport carries it.
pub open spec fn aboard(board: Board, mission: TransportMission) -> bool {
    ||| row(board, mission.transport_entity) matches Some(r) && r.cargo matches Some(c)
        && c.loaded@.contains(mission.cargo_entity)
    ||| row(board, mission.cargo_entity) matches Some(r) && r.transporting == Some(
        mission.transport_entity,
    )
}

/// The mission is void: the transport is gone, or the cargo is gone before it was landed.
pub open spec fn is_void(board: Board, mission: TransportMission) -> bool {
    position_of(board, mission.transport_entity) is None || (mission.phase != TransportPhase::Return
        && position_of(board, mission.cargo_entity) is None)
}

/// The transport stands on a building of its owner.
pub open spec fn is_home(board: Board, mission: TransportMission) -> bool {
    match row(board, mission.transport_entity) {
        Some(r) => match (r.position, r.faction) {
            (Some(p), Some(player)) => own_sites(
                board.rows@,
                player,
                board.rows.len() as int,
            ).contains(p),
            _ => false,
        },
        None => false,
    }
}

/// The transport carries its cargo and knows its island: its way there is asked for.
pub open spec fn asks_the_way(board: Board, islands: Seq<Island>, mission: TransportMission) -> bool {
    &&& !is_void(board, mission)
    &&& mission.phase == TransportPhase::Transit
    &&& aboard(board, mission)
    &&& mission.target_island matches Some(id) && island_numbered(islands, id, 0) is Some
}

/// The transport stands at, or one step from, where it heads for.
pub open spec fn has_arrived(
    board: Board,
    map: GameMap,
    registry: MasterDataRegistry,
    islands: Seq<Island>,
    mission: TransportMission,
) -> bool {
    match (
        position_of(board, mission.transport_entity),
        stats_of_unit(board, mission.transport_entity),
    ) {
        (Some(from), Some(stats)) => mission_approach(
            map,
            registry,
            islands,
            mission,
            from,
            stats.movement_type,
        ) matches Some(goal) && manhattan(goal, from) <= 1,
        _ => false,
    }
}

/// The phase after an update.
pub open spec fn next_phase(
    board: Board,
    map: GameMap,
    registry: MasterDataRegistry,
    islands: Seq<Island>,
    mission: TransportMission,
) -> TransportPhase {
    if is_void(board, mission) {
        mission.phase
    } else {
        match mission.phase {
            TransportPhase::Pickup => if aboard(board, mission) {
                TransportPhase::Transit
            } else {
                TransportPhase::Pickup
            },
            TransportPhase::Transit => if !aboard(board, mission) {
                TransportPhase::Return
            } else if has_arrived(board, map, registry, islands, mission) {
                TransportPhase::Drop
            } else {
                TransportPhase::Transit
            },
            TransportPhase::Drop => if !aboard(board, mission) {
                TransportPhase::Return
            } else {
                TransportPhase::Drop
            },
            TransportPhase::Return => TransportPhase::Return,
        }
    }
}

fn is_aboard(board: &Board, mission: &TransportMission) -> (r: bool)
    ensures
        r == aboard(*board, *mission),
{
    let loaded: bool = match board.find(mission.transport_entity) {
        Some(i) => match &board.rows[i].cargo {
            Some(c) => contains_entity(&c.loaded, mission.cargo_entity),
            None => false,
        },
        None => false,
    };
    let carried: bool = match board.find(mission.cargo_entity) {
        Some(i) => match board.rows[i].transporting {
            Some(t) => t == mission.transport_entity,
            None => false,
        },
        None => false,
    };
    loaded || carried
}

fn stands_home(board: &Board, mission: &TransportMission) -> (r: bool)
    ensures
        r == is_home(*board, *mission),
{
    match board.find(mission.transport_entity) {
        Some(i) => match board.rows[i].position {
            Some(p) => match board.rows[i].faction {
                Some(player) => {
                    let sites = find_own_sites(board, player);
                    contains_position(&sites, p)
                },
                None => false,
            },
            None => false,
        },
        None => false,
    }
}

fn arrived(
    board: &Board,
    map: &GameMap,
    registry: &MasterDataRegistry,
    islands: &IslandMap,
    mission: &TransportMission,
) -> (r: bool)
    ensures
        r == has_arrived(*board, *map, *registry, islands.islands@, *mission),
{
    let from = match find_position(board, mission.transport_entity) {
        Some(p) => p,
        None => {
            return false;
        },
    };
    let stats = match find_stats(board, mission.transport_entity) {
        Some(s) => s,
        None => {
            return false;
        },
    };
    match mission.target_island {
        Some(id) => match find_island_numbered(islands, id) {
            Some(i) => match get_target_position_for_island(
                map,
                registry,
                &islands.islands[i],
                from,
                stats.movement_type,
            ) {
                Some(goal) => manhattan_distance(goal, from) <= 1,
                None => false,
            },
            None => false,
        },
        None => false,
    }
}

/// Moves a mission on to its next phase. The result says whether the mission is over: it is void,
/// or the transport has come home.
pub fn update_mission_phase(
    board: &Board,
    map: &GameMap,
    registry: &MasterDataRegistry,
    islands: &IslandMap,
    mission: &mut TransportMission,
) -> (r: bool)
    requires
        asks_the_way(*board, islands.islands@, *old(mission)) ==> stats_of_unit(
            *board,
            old(mission).transport_entity,
        ) is Some,
    ensures
        *final(mission) == (TransportMission {
            phase: next_phase(*board, *map, *registry, islands.islands@, *old(mission)),
            ..*old(mission)
        }),
        r == (is_void(*board, *old(mission)) || (old(mission).phase == TransportPhase::Return
            && is_home(*board, *old(mission)))),
{
    if find_position(board, mission.transport_entity).is_none() {
        return true;
    }
    if mission.phase != TransportPhase::Return && find_position(
        board,
        mission.cargo_entity,
    ).is_none() {
        return true;
    }
    match mission.phase {
        TransportPhase::Pickup => {
            if is_aboard(board, mission) {
                mission.phase = TransportPhase::Transit;
            }
            false
        },
        TransportPhase::Transit => {
            if !is_aboard(board, mission) {
                mission.phase = TransportPhase::Return;
            } else if arrived(board, map, registry, islands, mission) {
                mission.phase = TransportPhase::Drop;
            }
            false
        },
        TransportPhase::Drop => {
            if !is_aboard(board, mission) {
                mission.phase = TransportPhase::Return;
            }
            false
        },
        TransportPhase::Return => stands_home(board, mission),
    }
}

/// A mission only moves forward: from fetching to carrying, from carrying to landing or straight
/// home, from landing home, and it never leaves the way home again.
pub proof fn law_phases_only_advance(
    board: Board,
    map: GameMap,
    registry: MasterDataRegistry,
    islands: Seq<Island>,
    mission: TransportMission,
)
    ensures
        ({
            let next = next_phase(board, map, registry, islands, mission);
            match mission.phase {
                TransportPhase::Pickup => next == TransportPhase::Pickup || next
                    == TransportPhase::Transit,
                TransportPhase::Transit => next == TransportPhase::Transit || next
                    == TransportPhase::Drop || next == TransportPhase::Return,
                TransportPhase::Drop => next == TransportPhase::Drop || next
                    == TransportPhase::Return,
                TransportPhase::Return => next == TransportPhase::Return,
            }
        }),
{
}

/// A mission heads home exactly when its cargo is no longer aboard, once it had been.
pub proof fn law_heads_home_iff_unloaded(
    board: Board,
    map: GameMap,
    registry: MasterDataRegistry,
    islands: Seq<Island>,
    mission: TransportMission,
)
    requires
        !is_void(board, mission),
        mission.phase == TransportPhase::Transit || mission.phase == TransportPhase::Drop,
    ensures
        next_phase(board, map, registry, islands, mission) == TransportPhase::Return <==> !aboard(
            board,
            mission,
        ),
{
}

proof fn lemma_landings_from(
    at: GridPosition,
    drops: Seq<GridPosition>,
    island: Seq<GridPosition>,
    n: int,
)
    requires
        0 <= n <= drops.len(),
    ensures
        forall|i: int|
            0 <= i < landings_from(at, drops, island, n).len() ==> {
                let pair = #[trigger] landings_from(at, drops, island, n)[i];
                pair.0 == at && island.contains(pair.1) && drops.contains(pair.1)
            },
    decreases n,
{
    if n > 0 {
        lemma_landings_from(at, drops, island, n - 1);
        assert(drops.contains(drops[n - 1]));
        let rest = landings_from(at, drops, island, n - 1);
        let all = landings_from(at, drops, island, n);
        assert forall|i: int| 0 <= i < all.len() implies {
            let pair = #[trigger] all[i];
            pair.0 == at && island.contains(pair.1) && drops.contains(pair.1)
        } by {
            if i < rest.len() {
                assert(all[i] == rest[i]);
            }
        }
    }
}

proof fn lemma_landings(
    rows: Seq<DropRow>,
    places: Seq<GridPosition>,
    island: Seq<GridPosition>,
    n: int,
)
    requires
        0 <= n <= places.len(),
    ensures
        forall|i: int|
            0 <= i < landings(rows, places, island, n).len() ==> {
                let pair = #[trigger] landings(rows, places, island, n)[i];
                places.contains(pair.0) && island.contains(pair.1) && drops_at(
                    rows,
                    pair.0,
                    0,
                ).contains(pair.1)
            },
    decreases n,
{
    if n > 0 {
        lemma_landings(rows, places, island, n - 1);
        let drops = drops_at(rows, places[n - 1], 0);
        lemma_landings_from(places[n - 1], drops, island, drops.len() as int);
        assert(places.contains(places[n - 1]));
        let rest = landings(rows, places, island, n - 1);
        let more = landings_from(places[n - 1], drops, island, drops.len() as int);
        assert forall|i: int| 0 <= i < (rest + more).len() implies {
            let pair = #[trigger] (rest + more)[i];
            places.contains(pair.0) && island.contains(pair.1) && drops_at(rows, pair.0, 0).contains(
                pair.1,
            )
        } by {
            if i >= rest.len() {
                assert((rest + more)[i] == more[i - rest.len()]);
            }
        }
    }
}

/// A transport on its way lands its cargo nowhere but on the target island, from a place that it
/// can get to and from which the rules allow that landing.
pub proof fn law_transit_lands_on_target_island(
    map: GameMap,
    registry: MasterDataRegistry,
    options: MissionOptions,
    mission: TransportMission,
    carrier: Carrier,
    island: Seq<GridPosition>,
    k: int,
)
    requires
        0 <= k < transit_commands(map, registry, options, mission, carrier, island).len(),
    ensures
        transit_commands(map, registry, options, mission, carrier, island)[k].1 matches
            AiCommand::Drop { transport_target_pos, cargo_drop_pos, cargo_entity } ==> {
            &&& cargo_entity == mission.cargo_entity
            &&& island.contains(cargo_drop_pos)
            &&& options.reachable@.contains(transport_target_pos)
            &&& drops_at(options.drops@, transport_target_pos, 0).contains(cargo_drop_pos)
        },
{
    let n = options.reachable.len() as int;
    let pairs = landings(options.drops@, options.reachable@, island, n);
    lemma_landings(options.drops@, options.reachable@, island, n);
    lemma_closest_within(
        places_of(pairs),
        carrier.position,
        TOO_FAR as nat,
        pairs.len() as int,
    );
    if let Some(i) = closest(places_of(pairs), carrier.position, pairs.len() as int) {
        assert(options.reachable@.contains(pairs[i].0));
    }
}

/// No unit that has acted is told to do anything while a cargo is fetched, except that the
/// transport is told to stay where neither can act.
pub proof fn law_pickup_spares_units_that_acted(
    board: Board,
    options: MissionOptions,
    mission: TransportMission,
    carrier: Carrier,
    cargo_pos: GridPosition,
    meetup: GridPosition,
    k: int,
)
    requires
        mission.transport_entity != mission.cargo_entity,
        0 <= k < pickup_commands(board, options, mission, carrier, cargo_pos, meetup).len(),
    ensures
        ({
            let c = pickup_commands(board, options, mission, carrier, cargo_pos, meetup)[k];
            has_acted(board, c.0) ==> c == (
                mission.transport_entity,
                AiCommand::Wait { target_pos: carrier.position },
            )
        }),
{
}

proof fn lemma_nearest_tile(tiles: Seq<GridPosition>, from: GridPosition, n: int)
    requires
        0 <= n <= tiles.len(),
    ensures
        nearest_tile(tiles, from, n) is Some <==> n > 0,
        nearest_tile(tiles, from, n) matches Some(p) ==> tiles.contains(p) && forall|i: int|
            0 <= i < n ==> manhattan(p, from) <= manhattan(#[trigger] tiles[i], from),
    decreases n,
{
    if n > 0 {
        lemma_nearest_tile(tiles, from, n - 1);
        assert(tiles.contains(tiles[n - 1]));
    }
}

/// Anything but a ship heads for a tile of the island itself, and none of its tiles is nearer. It
/// finds one on every island that has a tile.
pub proof fn law_approach_is_nearest(
    map: GameMap,
    registry: MasterDataRegistry,
    tiles: Seq<GridPosition>,
    from: GridPosition,
    movement_type: MovementType,
)
    requires
        movement_type != MovementType::Ship,
    ensures
        island_approach(map, registry, tiles, from, movement_type) is Some <==> tiles.len() > 0,
        island_approach(map, registry, tiles, from, movement_type) matches Some(p)
            ==> tiles.contains(p) && forall|i: int|
            0 <= i < tiles.len() ==> manhattan(p, from) <= manhattan(#[trigger] tiles[i], from),
{
    lemma_nearest_tile(tiles, from, tiles.len() as int);
}

proof fn lemma_enterable(
    map: GameMap,
    registry: MasterDataRegistry,
    movement_type: MovementType,
    near: Seq<GridPosition>,
    n: int,
    i: int,
)
    requires
        n <= near.len(),
        0 <= i < enterable(map, registry, movement_type, near, n).len(),
    ensures
        near.contains(enterable(map, registry, movement_type, near, n)[i]),
        can_enter(map, registry, movement_type, enterable(map, registry, movement_type, near, n)[i]),
    decreases n,
{
    if n > 0 {
        if i < enterable(map, registry, movement_type, near, n - 1).len() {
            lemma_enterable(map, registry, movement_type, near, n - 1, i);
        } else {
            assert(near.contains(near[n - 1]));
        }
    }
}

/// The position lies beside a tile of the island.
pub open spec fn lies_beside(map: GameMap, tiles: Seq<GridPosition>, p: GridPosition) -> bool {
    exists|k: int| 0 <= k < tiles.len() && map.adjacent(#[trigger] tiles[k]).contains(p)
}

proof fn lemma_docks(
    map: GameMap,
    registry: MasterDataRegistry,
    movement_type: MovementType,
    tiles: Seq<GridPosition>,
    n: int,
    i: int,
)
    requires
        n <= tiles.len(),
        0 <= i < docks(map, registry, movement_type, tiles, n).len(),
    ensures
        lies_beside(map, tiles, docks(map, registry, movement_type, tiles, n)[i]),
        can_enter(map, registry, movement_type, docks(map, registry, movement_type, tiles, n)[i]),
    decreases n,
{
    if n > 0 {
        let rest = docks(map, registry, movement_type, tiles, n - 1);
        if i < rest.len() {
            lemma_docks(map, registry, movement_type, tiles, n - 1, i);
        } else {
            let near = map.adjacent(tiles[n - 1]);
            lemma_enterable(
                map,
                registry,
                movement_type,
                near,
                near.len() as int,
                i - rest.len(),
            );
            assert(map.adjacent(tiles[n - 1]).contains(
                docks(map, registry, movement_type, tiles, n)[i],
            ));
        }
    }
}

/// A ship heads for a tile that it can enter, beside a tile of the island, and no such tile is
/// nearer, however far it is. It finds none exactly where there is none.
pub proof fn law_ship_docks_beside_island(
    map: GameMap,
    registry: MasterDataRegistry,
    tiles: Seq<GridPosition>,
    from: GridPosition,
)
    ensures
        ({
            let all = docks(map, registry, MovementType::Ship, tiles, tiles.len() as int);
            match island_approach(map, registry, tiles, from, MovementType::Ship) {
                Some(p) => lies_beside(map, tiles, p) && can_enter(
                    map,
                    registry,
                    MovementType::Ship,
                    p,
                ) && (forall|i: int|
                    0 <= i < all.len() ==> manhattan(p, from) <= manhattan(
                        #[trigger] all[i],
                        from,
                    )),
                None => all.len() == 0,
            }
        }),
{
    let all = docks(map, registry, MovementType::Ship, tiles, tiles.len() as int);
    lemma_closest_within(all, from, BEYOND_ALL as nat, all.len() as int);
    if all.len() > 0 {
        assert(manhattan(all[0], from) < BEYOND_ALL);
    }
    if let Some(i) = closest_within(all, from, BEYOND_ALL as nat, all.len() as int) {
        lemma_docks(map, registry, MovementType::Ship, tiles, tiles.len() as int, i);
    }
}

} // verus!
