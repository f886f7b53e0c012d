//! Which transport carries whom to which island.
use crate::board::{lemma_row_of, row_of, rows_distinct, Board, BoardRow, Property};
use crate::entity::Entity;
use crate::grid::{
    closest_within, contains_position, find_closest_within, manhattan, manhattan_distance,
    GridPosition, Terrain,
};
use crate::islands::{Island, IslandId, IslandMap};
use crate::master_data::MasterDataRegistry;
use crate::missions::{
    find_island_holding, find_island_numbered, island_holding, island_numbered, TransportMission,
    TransportMissionManager, TransportPhase,
};
use crate::objectives::{expected_value, total_income, InfantryCount, Objective, PriorityScore};
use crate::order::{
    key_views, lemma_lex_irreflexive, lemma_sort_prefix, lex_less, sort_order, stable_order,
    stands_before,
};
use crate::units::{PlayerId, UnitType};
use vstd::prelude::*;

verus! {

/// Infantry, transports and supply trucks do not count as fighting units.
pub open spec fn fights(unit_type: UnitType) -> bool {
    !(unit_type == UnitType::Infantry || unit_type == UnitType::Mech || unit_type
        == UnitType::TransportHelicopter || unit_type == UnitType::Lander || unit_type
        == UnitType::SupplyTruck)
}

/// The row is a fighting unit on the board, of the player if `own`, of anyone else if not.
pub open spec fn is_fighter(row: BoardRow, player: PlayerId, own: bool) -> bool {
    match (row.position, row.faction, row.stats) {
        (Some(_), Some(f), Some(stats)) => (own <==> f == player) && fights(stats.unit_type),
        _ => false,
    }
}

/// The row is a fighting unit of the player on one of the tiles.
pub open spec fn is_escort(row: BoardRow, player: PlayerId, tiles: Seq<GridPosition>) -> bool {
    is_fighter(row, player, true) && (row.position matches Some(p) && tiles.contains(p))
}

/// How many of the first `n` rows are fighting units.
pub open spec fn fighters(rows: Seq<BoardRow>, player: PlayerId, own: bool, n: int) -> nat
    decreases n,
{
    if n <= 0 {
        0
    } else {
        fighters(rows, player, own, n - 1) + (if is_fighter(rows[n - 1], player, own) {
            1nat
        } else {
            0nat
        })
    }
}

/// A fighting unit of the player stands on the island.
pub open spec fn has_escort(
    rows: Seq<BoardRow>,
    player: PlayerId,
    tiles: Seq<GridPosition>,
    n: int,
) -> bool {
    exists|i: int| 0 <= i < n && is_escort(#[trigger] rows[i], player, tiles)
}

/// An island with enemy production may be invaded if an escort is there already, or if the
/// player's fighting units outnumber the enemy's by a fifth and two more.
pub open spec fn invasion_allowed(
    rows: Seq<BoardRow>,
    player: PlayerId,
    tiles: Seq<GridPosition>,
) -> bool {
    let n = rows.len() as int;
    has_escort(rows, player, tiles, n) || 5 * fighters(rows, player, true, n) >= 6 * fighters(
        rows,
        player,
        false,
        n,
    ) + 10
}

fn is_fighting(unit_type: UnitType) -> (r: bool)
    ensures
        r == fights(unit_type),
{
    match unit_type {
        UnitType::Infantry | UnitType::Mech | UnitType::TransportHelicopter | UnitType::Lander
        | UnitType::SupplyTruck => false,
        _ => true,
    }
}

/// Whether the player may invade the island.
pub fn is_invasion_allowed(board: &Board, player_id: PlayerId, island: &Island) -> (r: bool)
    ensures
        r == invasion_allowed(board.rows@, player_id, island.tiles@),
{
    let mut escort: bool = false;
    let mut own: u128 = 0;
    let mut enemy: u128 = 0;
    let mut n: usize = 0;
    while n < board.rows.len()
        invariant
            n <= board.rows.len(),
            own <= n,
            enemy <= n,
            own == fighters(board.rows@, player_id, true, n as int),
            enemy == fighters(board.rows@, player_id, false, n as int),
            escort == has_escort(board.rows@, player_id, island.tiles@, n as int),
        decreases board.rows.len() - n,
    {
        let row = &board.rows[n];
        let mut landed: bool = false;
        if let Some(p) = row.position {
            if let Some(f) = row.faction {
                if let Some(stats) = &row.stats {
                    if is_fighting(stats.unit_type) {
                        if f == player_id {
                            own += 1;
                            if contains_position(&island.tiles, p) {
                                landed = true;
                            }
                        } else {
                            enemy += 1;
                        }
                    }
                }
            }
        }
        proof {
            let rows = board.rows@;
            let tiles = island.tiles@;
            assert(landed == is_escort(rows[n as int], player_id, tiles));
            if has_escort(rows, player_id, tiles, n as int) {
                let i = choose|i: int| 0 <= i < n && is_escort(#[trigger] rows[i], player_id, tiles);
                assert(0 <= i < n + 1 && is_escort(rows[i], player_id, tiles));
            }
        }
        escort = escort || landed;
        n += 1;
    }
    escort || 5 * own >= 6 * enemy + 10
}

/// The last of the first `n` rows that is a building at the position.
pub open spec fn site_at(rows: Seq<BoardRow>, p: GridPosition, n: int) -> Option<int>
    decreases n,
{
    if n <= 0 {
        None
    } else if rows[n - 1].position == Some(p) && rows[n - 1].property is Some {
        Some(n - 1)
    } else {
        site_at(rows, p, n - 1)
    }
}

/// The building at the position.
pub open spec fn property_at(rows: Seq<BoardRow>, p: GridPosition) -> Option<Property> {
    match site_at(rows, p, rows.len() as int) {
        Some(i) => rows[i].property,
        None => None,
    }
}

/// Units for the front are built in factories and capitals.
pub open spec fn is_base_terrain(terrain: Terrain) -> bool {
    terrain == Terrain::Factory || terrain == Terrain::Capital
}

/// Where the factories and capitals of the player among the first `n` rows stand.
pub open spec fn own_bases(rows: Seq<BoardRow>, player: PlayerId, n: int) -> Seq<GridPosition>
    decreases n,
{
    if n <= 0 {
        Seq::empty()
    } else {
        let rest = own_bases(rows, player, n - 1);
        match (rows[n - 1].position, rows[n - 1].property) {
            (Some(p), Some(property)) => if site_at(rows, p, rows.len() as int) == Some(n - 1)
                && property.owner_id == Some(player) && is_base_terrain(property.terrain) {
                rest.push(p)
            } else {
                rest
            },
            _ => rest,
        }
    }
}

/// Distances from here on do not count.
pub const NO_DISTANCE: u128 = 0x7fff_ffff;

/// The base of the player that is closest to the tile.
pub open spec fn closest_base(bases: Seq<GridPosition>, tile: GridPosition) -> Option<int> {
    closest_within(bases, tile, NO_DISTANCE as nat, bases.len() as int)
}

/// Infantry gets there on foot: the closest base stands on the same island, at most six steps
/// away.
pub open spec fn in_walking_distance(
    islands: Seq<Island>,
    bases: Seq<GridPosition>,
    target: IslandId,
    tile: GridPosition,
) -> bool {
    match closest_base(bases, tile) {
        Some(b) => island_holding(islands, bases[b], 0) matches Some(i) && islands[i].id == target
            && manhattan(bases[b], tile) <= 6,
        None => false,
    }
}

/// The tile has a building that is not the player's and that takes a transport to get to.
pub open spec fn is_wanted(
    rows: Seq<BoardRow>,
    islands: Seq<Island>,
    bases: Seq<GridPosition>,
    player: PlayerId,
    target: IslandId,
    tile: GridPosition,
) -> bool {
    property_at(rows, tile) matches Some(property) && property.owner_id != Some(player)
        && !in_walking_distance(islands, bases, target, tile)
}

/// What is to be won among the first `n` tiles of the island.
pub open spec fn wanted_sites(
    rows: Seq<BoardRow>,
    islands: Seq<Island>,
    bases: Seq<GridPosition>,
    player: PlayerId,
    target: IslandId,
    tiles: Seq<GridPosition>,
    n: int,
) -> Seq<(GridPosition, Terrain)>
    decreases n,
{
    if n <= 0 {
        Seq::empty()
    } else {
        let rest = wanted_sites(rows, islands, bases, player, target, tiles, n - 1);
        let tile = tiles[n - 1];
        match property_at(rows, tile) {
            Some(property) => if is_wanted(rows, islands, bases, player, target, tile) {
                rest.push((tile, property.terrain))
            } else {
                rest
            },
            None => rest,
        }
    }
}

/// How many of the sites are factories or capitals of an enemy.
pub open spec fn enemy_bases(
    rows: Seq<BoardRow>,
    sites: Seq<(GridPosition, Terrain)>,
    n: int,
) -> nat
    decreases n,
{
    if n <= 0 {
        0
    } else {
        enemy_bases(rows, sites, n - 1) + (if is_base_terrain(sites[n - 1].1) && (property_at(
            rows,
            sites[n - 1].0,
        ) matches Some(property) && property.owner_id is Some) {
            1nat
        } else {
            0nat
        })
    }
}

/// The least distance between a site among the first `n` and the base that is closest to it.
pub open spec fn least_distance(
    bases: Seq<GridPosition>,
    sites: Seq<(GridPosition, Terrain)>,
    n: int,
) -> Option<nat>
    decreases n,
{
    if n <= 0 {
        None
    } else {
        let rest = least_distance(bases, sites, n - 1);
        match closest_base(bases, sites[n - 1].0) {
            Some(b) => {
                let d = manhattan(bases[b], sites[n - 1].0);
                match rest {
                    Some(m) => if d < m {
                        Some(d)
                    } else {
                        Some(m)
                    },
                    None => Some(d),
                }
            },
            None => rest,
        }
    }
}

/// The distance that counts for the island: ten where there is none.
pub open spec fn island_distance(
    bases: Seq<GridPosition>,
    sites: Seq<(GridPosition, Terrain)>,
) -> nat {
    match least_distance(bases, sites, sites.len() as int) {
        Some(d) => d,
        None => 10,
    }
}

/// The objective that an island is.
pub open spec fn island_objective(
    rows: Seq<BoardRow>,
    islands: Seq<Island>,
    registry: MasterDataRegistry,
    bases: Seq<GridPosition>,
    player: PlayerId,
    island: Island,
) -> Objective {
    let sites = wanted_sites(
        rows,
        islands,
        bases,
        player,
        island.id,
        island.tiles@,
        island.tiles.len() as int,
    );
    let count = sites.len() as int;
    Objective {
        target_island: island.id,
        priority_score: PriorityScore(
            (if count > 0 {
                expected_value(
                    total_income(sites, registry, count),
                    island_distance(bases, sites) as int,
                    enemy_bases(rows, sites, count) as int,
                )
            } else {
                0
            }) as i32,
        ),
        needed_infantry: InfantryCount(
            (if count > 0 {
                count
            } else {
                1
            }) as usize,
        ),
    }
}

/// An enemy builds units on the island.
pub open spec fn is_enemy_stronghold(
    rows: Seq<BoardRow>,
    islands: Seq<Island>,
    bases: Seq<GridPosition>,
    player: PlayerId,
    island: Island,
) -> bool {
    let sites = wanted_sites(
        rows,
        islands,
        bases,
        player,
        island.id,
        island.tiles@,
        island.tiles.len() as int,
    );
    enemy_bases(rows, sites, sites.len() as int) > 0
}

/// An objective and whether an enemy builds units there.
#[derive(Clone, Copy, Debug, PartialEq, Eq, Structural)]
pub struct IslandTarget {
    pub objective: Objective,
    pub stronghold: bool,
}

/// The objectives of the first `n` target islands that are known.
pub open spec fn island_targets(
    rows: Seq<BoardRow>,
    islands: Seq<Island>,
    registry: MasterDataRegistry,
    player: PlayerId,
    targets: Seq<IslandId>,
    n: int,
) -> Seq<IslandTarget>
    decreases n,
{
    if n <= 0 {
        Seq::empty()
    } else {
        let rest = island_targets(rows, islands, registry, player, targets, n - 1);
        let bases = own_bases(rows, player, rows.len() as int);
        match island_numbered(islands, targets[n - 1], 0) {
            Some(i) => rest.push(
                IslandTarget {
                    objective: island_objective(rows, islands, registry, bases, player, islands[i]),
                    stronghold: is_enemy_stronghold(rows, islands, bases, player, islands[i]),
                },
            ),
            None => rest,
        }
    }
}

/// Other islands come before islands with a base of the player; then the higher score.
pub open spec fn target_key(target: IslandTarget, base_islands: Seq<IslandId>) -> Seq<u64> {
    seq![
        if base_islands.contains(target.objective.target_island) {
            1u64
        } else {
            0u64
        },
        (i32::MAX - target.objective.priority_score.0) as u64,
    ]
}

/// The keys of all targets.
pub open spec fn target_keys(targets: Seq<IslandTarget>, base_islands: Seq<IslandId>) -> Seq<
    Seq<u64>,
> {
    Seq::new(targets.len(), |i: int| target_key(targets[i], base_islands))
}

fn find_site(board: &Board, p: GridPosition) -> (r: Option<usize>)
    ensures
        r is Some <==> site_at(board.rows@, p, board.rows.len() as int) is Some,
        r matches Some(i) ==> site_at(board.rows@, p, board.rows.len() as int) == Some(i as int)
            && i < board.rows.len(),
{
    let mut n: usize = board.rows.len();
    while n > 0
        invariant
            n <= board.rows.len(),
            site_at(board.rows@, p, board.rows.len() as int) == site_at(board.rows@, p, n as int),
        decreases n,
    {
        let here: bool = match board.rows[n - 1].position {
            Some(q) => q == p,
            None => false,
        };
        if here && board.rows[n - 1].property.is_some() {
            return Some(n - 1);
        }
        n -= 1;
    }
    None
}

fn find_property(board: &Board, p: GridPosition) -> (r: Option<Property>)
    ensures
        r == property_at(board.rows@, p),
{
    match find_site(board, p) {
        Some(i) => board.rows[i].property,
        None => None,
    }
}

fn is_base(terrain: Terrain) -> (r: bool)
    ensures
        r == is_base_terrain(terrain),
{
    terrain == Terrain::Factory || terrain == Terrain::Capital
}

fn owned(property: Property, player: PlayerId) -> (r: bool)
    ensures
        r == (property.owner_id == Some(player)),
{
    match property.owner_id {
        Some(owner) => owner == player,
        None => false,
    }
}

fn find_own_bases(board: &Board, player: PlayerId) -> (r: Vec<GridPosition>)
    ensures
        r@ == own_bases(board.rows@, player, board.rows.len() as int),
{
    let mut r: Vec<GridPosition> = Vec::new();
    let mut n: usize = 0;
    while n < board.rows.len()
        invariant
            n <= board.rows.len(),
            r@ == own_bases(board.rows@, player, n as int),
        decreases board.rows.len() - n,
    {
        if let Some(p) = board.rows[n].position {
            if let Some(property) = board.rows[n].property {
                let current: bool = match find_site(board, p) {
                    Some(i) => i == n,
                    None => false,
                };
                if current && owned(property, player) && is_base(property.terrain) {
                    r.push(p);
                }
            }
        }
        n += 1;
    }
    r
}

fn walkable(
    islands: &IslandMap,
    bases: &Vec<GridPosition>,
    target: IslandId,
    tile: GridPosition,
) -> (r: bool)
    ensures
        r == in_walking_distance(islands.islands@, bases@, target, tile),
{
    match find_closest_within(bases, tile, NO_DISTANCE) {
        Some(b) => match find_island_holding(islands, bases[b]) {
            Some(i) => islands.islands[i].id == target && manhattan_distance(bases[b], tile) <= 6,
            None => false,
        },
        None => false,
    }
}

/// Rates one island.
fn rate_island(
    board: &Board,
    islands: &IslandMap,
    registry: &MasterDataRegistry,
    bases: &Vec<GridPosition>,
    player: PlayerId,
    island: &Island,
) -> (r: IslandTarget)
    requires
        island.tiles.len() <= u32::MAX,
    ensures
        r.objective == island_objective(
            board.rows@,
            islands.islands@,
            *registry,
            bases@,
            player,
            *island,
        ),
        r.stronghold == is_enemy_stronghold(
            board.rows@,
            islands.islands@,
            bases@,
            player,
            *island,
        ),
{
    let ghost rows = board.rows@;
    let mut sites: Vec<(GridPosition, Terrain)> = Vec::new();
    let mut enemies: u32 = 0;
    let mut nearest: u128 = NO_DISTANCE;
    let mut n: usize = 0;
    while n < island.tiles.len()
        invariant
            n <= island.tiles.len(),
            island.tiles.len() <= u32::MAX,
            rows == board.rows@,
            sites.len() <= n,
            sites@ == wanted_sites(
                rows,
                islands.islands@,
                bases@,
                player,
                island.id,
                island.tiles@,
                n as int,
            ),
            enemies <= sites.len(),
            enemies == enemy_bases(rows, sites@, sites.len() as int),
            nearest <= NO_DISTANCE,
            match least_distance(bases@, sites@, sites.len() as int) {
                Some(d) => nearest == d && nearest < NO_DISTANCE,
                None => nearest == NO_DISTANCE,
            },
        decreases island.tiles.len() - n,
    {
        let tile = island.tiles[n];
        if let Some(property) = find_property(board, tile) {
            if !owned(property, player) && !walkable(islands, bases, island.id, tile) {
                let ghost before = sites@;
                sites.push((tile, property.terrain));
                proof {
                    lemma_counts_extend(rows, bases@, before, (tile, property.terrain));
                }
                if property.owner_id.is_some() && is_base(property.terrain) {
                    enemies += 1;
                }
                if let Some(b) = find_closest_within(bases, tile, NO_DISTANCE) {
                    let d: u128 = manhattan_distance(bases[b], tile);
                    if d < nearest {
                        nearest = d;
                    }
                }
            }
        }
        n += 1;
    }
    let distance: i32 = if nearest == NO_DISTANCE {
        10
    } else {
        nearest as i32
    };
    let objective = Objective::evaluate(
        island.id,
        sites.as_slice(),
        distance,
        enemies,
        registry,
    );
    proof {
        let count = sites@.len() as int;
        lemma_value_in_range(
            total_income(sites@, *registry, count),
            distance as int,
            enemies as int,
        );
    }
    IslandTarget { objective, stronghold: enemies > 0 }
}

proof fn lemma_value_in_range(income: int, distance: int, enemies: int)
    ensures
        i32::MIN <= expected_value(income, distance, enemies) <= i32::MAX,
{
}

proof fn lemma_prefix_counts(
    rows: Seq<BoardRow>,
    bases: Seq<GridPosition>,
    a: Seq<(GridPosition, Terrain)>,
    b: Seq<(GridPosition, Terrain)>,
    n: int,
)
    requires
        0 <= n <= a.len(),
        n <= b.len(),
        forall|i: int| 0 <= i < n ==> #[trigger] a[i] == b[i],
    ensures
        enemy_bases(rows, a, n) == enemy_bases(rows, b, n),
        least_distance(bases, a, n) == least_distance(bases, b, n),
    decreases n,
{
    if n > 0 {
        lemma_prefix_counts(rows, bases, a, b, n - 1);
        assert(a[n - 1] == b[n - 1]);
    }
}

proof fn lemma_counts_extend(
    rows: Seq<BoardRow>,
    bases: Seq<GridPosition>,
    sites: Seq<(GridPosition, Terrain)>,
    site: (GridPosition, Terrain),
)
    ensures
        enemy_bases(rows, sites.push(site), sites.len() as int) == enemy_bases(
            rows,
            sites,
            sites.len() as int,
        ),
        least_distance(bases, sites.push(site), sites.len() as int) == least_distance(
            bases,
            sites,
            sites.len() as int,
        ),
{
    lemma_prefix_counts(rows, bases, sites.push(site), sites, sites.len() as int);
}

/// The owner of an entity.
pub open spec fn faction_of(rows: Seq<BoardRow>, e: Entity) -> Option<PlayerId> {
    match row_of(rows, e, 0) {
        Some(i) => rows[i].faction,
        None => None,
    }
}

/// The mission is the player's.
pub open spec fn is_own_mission(rows: Seq<BoardRow>, m: TransportMission, player: PlayerId) -> bool {
    faction_of(rows, m.transport_entity) == Some(player)
}

/// The transport has a mission already.
pub open spec fn transport_busy(
    rows: Seq<BoardRow>,
    missions: Seq<TransportMission>,
    player: PlayerId,
    e: Entity,
) -> bool {
    exists|i: int|
        0 <= i < missions.len() && is_own_mission(rows, #[trigger] missions[i], player)
            && missions[i].transport_entity == e
}

/// The unit waits for a transport or is being carried. Once the transport is on its way home the
/// unit is free again.
pub open spec fn cargo_busy(
    rows: Seq<BoardRow>,
    missions: Seq<TransportMission>,
    player: PlayerId,
    e: Entity,
) -> bool {
    exists|i: int|
        0 <= i < missions.len() && is_own_mission(rows, #[trigger] missions[i], player)
            && missions[i].cargo_entity == e && missions[i].phase != TransportPhase::Return
}

/// The row is a transport of the player without a mission.
pub open spec fn is_free_transport(
    rows: Seq<BoardRow>,
    missions: Seq<TransportMission>,
    player: PlayerId,
    row: BoardRow,
) -> bool {
    match (row.faction, row.stats, row.position, row.cargo) {
        (Some(f), Some(stats), Some(_), Some(_)) => f == player && (stats.unit_type
            == UnitType::TransportHelicopter || stats.unit_type == UnitType::Lander)
            && !transport_busy(rows, missions, player, row.entity),
        _ => false,
    }
}

/// The first unit in the hold.
pub open spec fn first_loaded(row: BoardRow) -> Option<Entity> {
    match row.cargo {
        Some(c) => if c.loaded.len() > 0 {
            Some(c.loaded[0])
        } else {
            None
        },
        None => None,
    }
}

/// The free transports among the first `n` rows that carry a unit, each with its first unit.
pub open spec fn free_loaded(
    rows: Seq<BoardRow>,
    missions: Seq<TransportMission>,
    player: PlayerId,
    n: int,
) -> Seq<(Entity, Entity)>
    decreases n,
{
    if n <= 0 {
        Seq::empty()
    } else {
        let rest = free_loaded(rows, missions, player, n - 1);
        match first_loaded(rows[n - 1]) {
            Some(cargo) => if is_free_transport(rows, missions, player, rows[n - 1]) {
                rest.push((rows[n - 1].entity, cargo))
            } else {
                rest
            },
            None => rest,
        }
    }
}

/// The free transports among the first `n` rows that are empty.
pub open spec fn free_empty(
    rows: Seq<BoardRow>,
    missions: Seq<TransportMission>,
    player: PlayerId,
    n: int,
) -> Seq<Entity>
    decreases n,
{
    if n <= 0 {
        Seq::empty()
    } else {
        let rest = free_empty(rows, missions, player, n - 1);
        if is_free_transport(rows, missions, player, rows[n - 1]) && first_loaded(rows[n - 1]) is None {
            rest.push(rows[n - 1].entity)
        } else {
            rest
        }
    }
}

/// The row is infantry of the player on an island with a base, outside any transport and without
/// a mission.
pub open spec fn is_free_infantry(
    rows: Seq<BoardRow>,
    islands: Seq<Island>,
    missions: Seq<TransportMission>,
    player: PlayerId,
    base_islands: Seq<IslandId>,
    row: BoardRow,
) -> bool {
    match (row.faction, row.stats, row.position) {
        (Some(f), Some(stats), Some(p)) => f == player && (stats.unit_type == UnitType::Infantry
            || stats.unit_type == UnitType::Mech) && row.transporting is None && !cargo_busy(
            rows,
            missions,
            player,
            row.entity,
        ) && (island_holding(islands, p, 0) matches Some(i) && base_islands.contains(islands[i].id)),
        _ => false,
    }
}

/// The free infantry among the first `n` rows.
pub open spec fn free_infantry(
    rows: Seq<BoardRow>,
    islands: Seq<Island>,
    missions: Seq<TransportMission>,
    player: PlayerId,
    base_islands: Seq<IslandId>,
    n: int,
) -> Seq<Entity>
    decreases n,
{
    if n <= 0 {
        Seq::empty()
    } else {
        let rest = free_infantry(rows, islands, missions, player, base_islands, n - 1);
        if is_free_infantry(rows, islands, missions, player, base_islands, rows[n - 1]) {
            rest.push(rows[n - 1].entity)
        } else {
            rest
        }
    }
}

/// How many of the first `n` missions of the player go to the island.
pub open spec fn missions_to(
    rows: Seq<BoardRow>,
    missions: Seq<TransportMission>,
    player: PlayerId,
    island: IslandId,
    n: int,
) -> nat
    decreases n,
{
    if n <= 0 {
        0
    } else {
        missions_to(rows, missions, player, island, n - 1) + (if is_own_mission(
            rows,
            missions[n - 1],
            player,
        ) && missions[n - 1].target_island == Some(island) {
            1nat
        } else {
            0nat
        })
    }
}

/// Units still to be given out, from the end of each list, and the missions given so far.
pub struct Allocation {
    pub loaded: Seq<(Entity, Entity)>,
    pub empty: Seq<Entity>,
    pub infantry: Seq<Entity>,
    pub added: Seq<TransportMission>,
}

/// Up to `k` loaded transports set out for the island.
pub open spec fn send_loaded(a: Allocation, island: IslandId, k: int) -> Allocation
    decreases k,
{
    if k <= 0 || a.loaded.len() == 0 {
        a
    } else {
        let (transport_entity, cargo_entity) = a.loaded.last();
        send_loaded(
            Allocation {
                loaded: a.loaded.drop_last(),
                added: a.added.push(
                    TransportMission {
                        transport_entity,
                        cargo_entity,
                        phase: TransportPhase::Transit,
                        target_island: Some(island),
                    },
                ),
                ..a
            },
            island,
            k - 1,
        )
    }
}

/// Up to `k` empty transports are to fetch one infantry unit each for the island.
pub open spec fn send_empty(a: Allocation, island: IslandId, k: int) -> Allocation
    decreases k,
{
    if k <= 0 || a.empty.len() == 0 || a.infantry.len() == 0 {
        a
    } else {
        send_empty(
            Allocation {
                empty: a.empty.drop_last(),
                infantry: a.infantry.drop_last(),
                added: a.added.push(
                    TransportMission {
                        transport_entity: a.empty.last(),
                        cargo_entity: a.infantry.last(),
                        phase: TransportPhase::Pickup,
                        target_island: Some(island),
                    },
                ),
                ..a
            },
            island,
            k - 1,
        )
    }
}

/// What the target gets: loaded transports first, then empty ones with infantry.
pub open spec fn served(a: Allocation, island: IslandId, k: int) -> Allocation {
    let sent = if k <= a.loaded.len() {
        k
    } else {
        a.loaded.len() as int
    };
    send_empty(send_loaded(a, island, k), island, k - sent)
}

/// The target is a stronghold that must not be invaded.
pub open spec fn is_forbidden(
    rows: Seq<BoardRow>,
    islands: Seq<Island>,
    player: PlayerId,
    target: IslandTarget,
) -> bool {
    target.stronghold && !(island_numbered(islands, target.objective.target_island, 0) matches Some(
        i,
    ) && invasion_allowed(rows, player, islands[i].tiles@))
}

/// How many more units the target needs.
pub open spec fn still_needed(
    rows: Seq<BoardRow>,
    missions: Seq<TransportMission>,
    player: PlayerId,
    target: IslandTarget,
) -> int {
    let sent = missions_to(
        rows,
        missions,
        player,
        target.objective.target_island,
        missions.len() as int,
    );
    let needed = target.objective.needed_infantry.0;
    if needed > sent {
        needed - sent
    } else {
        0
    }
}

/// The allocation after the first `n` targets of the order, and whether the transports ran out.
pub open spec fn allocated(
    rows: Seq<BoardRow>,
    islands: Seq<Island>,
    missions: Seq<TransportMission>,
    player: PlayerId,
    targets: Seq<IslandTarget>,
    order: Seq<int>,
    start: Allocation,
    n: int,
) -> (Allocation, bool)
    decreases n,
{
    if n <= 0 {
        (start, false)
    } else {
        let (a, over) = allocated(rows, islands, missions, player, targets, order, start, n - 1);
        let target = targets[order[n - 1]];
        if over || is_forbidden(rows, islands, player, target) {
            (a, over)
        } else {
            let b = served(
                a,
                target.objective.target_island,
                still_needed(rows, missions, player, target),
            );
            (b, b.empty.len() == 0 && b.loaded.len() == 0)
        }
    }
}

/// What there is to give out.
pub open spec fn free_units(
    rows: Seq<BoardRow>,
    islands: Seq<Island>,
    missions: Seq<TransportMission>,
    player: PlayerId,
    base_islands: Seq<IslandId>,
) -> Allocation {
    let n = rows.len() as int;
    Allocation {
        loaded: free_loaded(rows, missions, player, n),
        empty: free_empty(rows, missions, player, n),
        infantry: free_infantry(rows, islands, missions, player, base_islands, n),
        added: Seq::empty(),
    }
}

/// The new missions.
pub open spec fn new_missions(
    rows: Seq<BoardRow>,
    islands: Seq<Island>,
    registry: MasterDataRegistry,
    missions: Seq<TransportMission>,
    player: PlayerId,
    base_islands: Seq<IslandId>,
    target_islands: Seq<IslandId>,
) -> Seq<TransportMission> {
    let targets = island_targets(
        rows,
        islands,
        registry,
        player,
        target_islands,
        target_islands.len() as int,
    );
    let order = sort_order(target_keys(targets, base_islands));
    allocated(
        rows,
        islands,
        missions,
        player,
        targets,
        order,
        free_units(rows, islands, missions, player, base_islands),
        targets.len() as int,
    ).0.added
}

fn own_mission(board: &Board, m: &TransportMission, player: PlayerId) -> (r: bool)
    ensures
        r == is_own_mission(board.rows@, *m, player),
{
    match board.find(m.transport_entity) {
        Some(i) => match board.rows[i].faction {
            Some(f) => f == player,
            None => false,
        },
        None => false,
    }
}

fn has_transport_mission(
    board: &Board,
    missions: &Vec<TransportMission>,
    player: PlayerId,
    e: Entity,
) -> (r: bool)
    ensures
        r == transport_busy(board.rows@, missions@, player, e),
{
    let mut i: usize = 0;
    while i < missions.len()
        invariant
            i <= missions.len(),
            forall|j: int|
                0 <= j < i ==> !(is_own_mission(board.rows@, #[trigger] missions[j], player)
                    && missions[j].transport_entity == e),
        decreases missions.len() - i,
    {
        if missions[i].transport_entity == e && own_mission(board, &missions[i], player) {
            assert(is_own_mission(board.rows@, missions@[i as int], player));
            return true;
        }
        i += 1;
    }
    false
}

fn has_cargo_mission(
    board: &Board,
    missions: &Vec<TransportMission>,
    player: PlayerId,
    e: Entity,
) -> (r: bool)
    ensures
        r == cargo_busy(board.rows@, missions@, player, e),
{
    let mut i: usize = 0;
    while i < missions.len()
        invariant
            i <= missions.len(),
            forall|j: int|
                0 <= j < i ==> !(is_own_mission(board.rows@, #[trigger] missions[j], player)
                    && missions[j].cargo_entity == e && missions[j].phase
                    != TransportPhase::Return),
        decreases missions.len() - i,
    {
        if missions[i].cargo_entity == e && missions[i].phase != TransportPhase::Return
            && own_mission(board, &missions[i], player) {
            assert(is_own_mission(board.rows@, missions@[i as int], player));
            return true;
        }
        i += 1;
    }
    false
}

fn free_transport(
    board: &Board,
    missions: &Vec<TransportMission>,
    player: PlayerId,
    n: usize,
) -> (r: bool)
    requires
        n < board.rows.len(),
    ensures
        r == is_free_transport(board.rows@, missions@, player, board.rows[n as int]),
{
    let row = &board.rows[n];
    let carries: bool = match &row.stats {
        Some(stats) => stats.unit_type == UnitType::TransportHelicopter || stats.unit_type
            == UnitType::Lander,
        None => false,
    };
    let own: bool = match row.faction {
        Some(f) => f == player,
        None => false,
    };
    carries && own && row.position.is_some() && row.cargo.is_some() && !has_transport_mission(
        board,
        missions,
        player,
        row.entity,
    )
}

fn contains_island(list: &Vec<IslandId>, id: IslandId) -> (r: bool)
    ensures
        r == list@.contains(id),
{
    let mut i: usize = 0;
    while i < list.len()
        invariant
            i <= list.len(),
            forall|j: int| 0 <= j < i ==> list[j] != id,
        decreases list.len() - i,
    {
        if list[i] == id {
            assert(list@[i as int] == id);
            return true;
        }
        i += 1;
    }
    false
}

fn free_foot_soldier(
    board: &Board,
    islands: &IslandMap,
    missions: &Vec<TransportMission>,
    player: PlayerId,
    base_islands: &Vec<IslandId>,
    n: usize,
) -> (r: bool)
    requires
        n < board.rows.len(),
    ensures
        r == is_free_infantry(
            board.rows@,
            islands.islands@,
            missions@,
            player,
            base_islands@,
            board.rows[n as int],
        ),
{
    let row = &board.rows[n];
    let walks: bool = match &row.stats {
        Some(stats) => stats.unit_type == UnitType::Infantry || stats.unit_type == UnitType::Mech,
        None => false,
    };
    let own: bool = match row.faction {
        Some(f) => f == player,
        None => false,
    };
    if !walks || !own || row.transporting.is_some() {
        return false;
    }
    match row.position {
        Some(p) => {
            if has_cargo_mission(board, missions, player, row.entity) {
                return false;
            }
            match find_island_holding(islands, p) {
                Some(i) => contains_island(base_islands, islands.islands[i].id),
                None => false,
            }
        },
        None => false,
    }
}

/// What is left to give out, and what was given.
struct Roster {
    loaded: Vec<(Entity, Entity)>,
    empty: Vec<Entity>,
    infantry: Vec<Entity>,
    added: Vec<TransportMission>,
}

impl View for Roster {
    type V = Allocation;

    closed spec fn view(&self) -> Allocation {
        Allocation {
            loaded: self.loaded@,
            empty: self.empty@,
            infantry: self.infantry@,
            added: self.added@,
        }
    }
}

fn collect_free_units(
    board: &Board,
    islands: &IslandMap,
    missions: &Vec<TransportMission>,
    player: PlayerId,
    base_islands: &Vec<IslandId>,
) -> (r: Roster)
    ensures
        r@ == free_units(board.rows@, islands.islands@, missions@, player, base_islands@),
{
    let mut loaded: Vec<(Entity, Entity)> = Vec::new();
    let mut empty: Vec<Entity> = Vec::new();
    let mut infantry: Vec<Entity> = Vec::new();
    let mut n: usize = 0;
    while n < board.rows.len()
        invariant
            n <= board.rows.len(),
            loaded@ == free_loaded(board.rows@, missions@, player, n as int),
            empty@ == free_empty(board.rows@, missions@, player, n as int),
            infantry@ == free_infantry(
                board.rows@,
                islands.islands@,
                missions@,
                player,
                base_islands@,
                n as int,
            ),
        decreases board.rows.len() - n,
    {
        let entity = board.rows[n].entity;
        if free_transport(board, missions, player, n) {
            if let Some(c) = &board.rows[n].cargo {
                if c.loaded.len() > 0 {
                    loaded.push((entity, c.loaded[0]));
                } else {
                    empty.push(entity);
                }
            }
        }
        if free_foot_soldier(board, islands, missions, player, base_islands, n) {
            infantry.push(entity);
        }
        n += 1;
    }
    Roster { loaded, empty, infantry, added: Vec::new() }
}

fn serve(roster: &mut Roster, island: IslandId, k: usize)
    ensures
        final(roster)@ == served(old(roster)@, island, k as int),
{
    let ghost start = roster@;
    let mut left: usize = k;
    while left > 0 && roster.loaded.len() > 0
        invariant
            left <= k,
            k - left <= start.loaded.len(),
            roster@.loaded.len() == start.loaded.len() - (k - left),
            send_loaded(start, island, k as int) == send_loaded(roster@, island, left as int),
        decreases left,
    {
        let ghost before = roster@;
        if let Some((transport_entity, cargo_entity)) = roster.loaded.pop() {
            roster.added.push(
                TransportMission {
                    transport_entity,
                    cargo_entity,
                    phase: TransportPhase::Transit,
                    target_island: Some(island),
                },
            );
            assert((transport_entity, cargo_entity) == before.loaded.last());
            assert(roster@.loaded =~= before.loaded.drop_last());
        }
        left -= 1;
    }
    let ghost middle = roster@;
    assert(middle == send_loaded(start, island, k as int));
    let ghost rest = left as int;
    assert(served(start, island, k as int) == send_empty(middle, island, rest));
    while left > 0 && roster.empty.len() > 0 && roster.infantry.len() > 0
        invariant
            send_empty(middle, island, rest) == send_empty(roster@, island, left as int),
        decreases left,
    {
        let ghost before = roster@;
        if let Some(transport_entity) = roster.empty.pop() {
            if let Some(cargo_entity) = roster.infantry.pop() {
                roster.added.push(
                    TransportMission {
                        transport_entity,
                        cargo_entity,
                        phase: TransportPhase::Pickup,
                        target_island: Some(island),
                    },
                );
                assert(transport_entity == before.empty.last());
                assert(cargo_entity == before.infantry.last());
                assert(roster@.empty =~= before.empty.drop_last());
                assert(roster@.infantry =~= before.infantry.drop_last());
            }
        }
        left -= 1;
    }
}

fn count_missions_to(
    board: &Board,
    missions: &Vec<TransportMission>,
    player: PlayerId,
    island: IslandId,
) -> (r: usize)
    ensures
        r == missions_to(board.rows@, missions@, player, island, missions.len() as int),
{
    let mut r: usize = 0;
    let mut n: usize = 0;
    while n < missions.len()
        invariant
            n <= missions.len(),
            r <= n,
            r == missions_to(board.rows@, missions@, player, island, n as int),
        decreases missions.len() - n,
    {
        let there: bool = match missions[n].target_island {
            Some(id) => id == island,
            None => false,
        };
        if there && own_mission(board, &missions[n], player) {
            r += 1;
        }
        n += 1;
    }
    r
}

fn forbidden(board: &Board, islands: &IslandMap, player: PlayerId, target: IslandTarget) -> (r: bool)
    ensures
        r == is_forbidden(board.rows@, islands.islands@, player, target),
{
    if !target.stronghold {
        return false;
    }
    match find_island_numbered(islands, target.objective.target_island) {
        Some(i) => !is_invasion_allowed(board, player, &islands.islands[i]),
        None => true,
    }
}

fn collect_targets(
    board: &Board,
    islands: &IslandMap,
    registry: &MasterDataRegistry,
    player: PlayerId,
    target_islands: &Vec<IslandId>,
) -> (r: Vec<IslandTarget>)
    requires
        forall|i: int|
            0 <= i < islands.islands.len() ==> (#[trigger] islands.islands[i]).tiles.len()
                <= u32::MAX,
    ensures
        r@ == island_targets(
            board.rows@,
            islands.islands@,
            *registry,
            player,
            target_islands@,
            target_islands.len() as int,
        ),
{
    let bases = find_own_bases(board, player);
    let mut r: Vec<IslandTarget> = Vec::new();
    let mut n: usize = 0;
    while n < target_islands.len()
        invariant
            n <= target_islands.len(),
            bases@ == own_bases(board.rows@, player, board.rows.len() as int),
            forall|i: int|
                0 <= i < islands.islands.len() ==> (#[trigger] islands.islands[i]).tiles.len()
                    <= u32::MAX,
            r@ == island_targets(
                board.rows@,
                islands.islands@,
                *registry,
                player,
                target_islands@,
                n as int,
            ),
        decreases target_islands.len() - n,
    {
        if let Some(i) = find_island_numbered(islands, target_islands[n]) {
            r.push(rate_island(board, islands, registry, &bases, player, &islands.islands[i]));
        }
        n += 1;
    }
    r
}

fn sort_targets(targets: &Vec<IslandTarget>, base_islands: &Vec<IslandId>) -> (r: Vec<usize>)
    ensures
        r.len() == targets.len(),
        forall|i: int|
            0 <= i < r.len() ==> #[trigger] r[i] == sort_order(
                target_keys(targets@, base_islands@),
            )[i],
        forall|i: int| 0 <= i < r.len() ==> #[trigger] r[i] < targets.len(),
{
    let mut keys: Vec<Vec<u64>> = Vec::new();
    let mut n: usize = 0;
    while n < targets.len()
        invariant
            n <= targets.len(),
            keys.len() == n,
            forall|i: int|
                0 <= i < n ==> (#[trigger] keys[i])@ == target_key(targets[i], base_islands@),
        decreases targets.len() - n,
    {
        let objective = targets[n].objective;
        let group: u64 = if contains_island(base_islands, objective.target_island) {
            1
        } else {
            0
        };
        let score: i32 = objective.priority_score.0;
        let mut key: Vec<u64> = Vec::new();
        key.push(group);
        key.push((0x7fff_ffff - score as i64) as u64);
        assert(key@ =~= target_key(targets[n as int], base_islands@));
        keys.push(key);
        n += 1;
    }
    assert(key_views(keys@) =~= target_keys(targets@, base_islands@));
    stable_order(&keys)
}

/// Gives out transport missions. Every island to be taken is rated; other islands come before
/// those with an own base, and among them the better rated one comes first. Each gets as many
/// units as it still needs, as long as there are transports. Strongholds of an enemy are left
/// alone as long as an invasion is not allowed.
pub fn assign_transport_missions(
    board: &Board,
    islands: &IslandMap,
    registry: &MasterDataRegistry,
    base_islands: &Vec<IslandId>,
    target_islands: &Vec<IslandId>,
    manager: &mut TransportMissionManager,
    player_id: PlayerId,
)
    requires
        forall|i: int|
            0 <= i < islands.islands.len() ==> (#[trigger] islands.islands[i]).tiles.len()
                <= u32::MAX,
    ensures
        final(manager).missions@ == old(manager).missions@ + new_missions(
            board.rows@,
            islands.islands@,
            *registry,
            old(manager).missions@,
            player_id,
            base_islands@,
            target_islands@,
        ),
{
    let ghost rows = board.rows@;
    let ghost lands = islands.islands@;
    let ghost missions = manager.missions@;
    let targets = collect_targets(board, islands, registry, player_id, target_islands);
    let sorted = sort_targets(&targets, base_islands);
    let ghost order = sort_order(target_keys(targets@, base_islands@));
    let mut roster = collect_free_units(
        board,
        islands,
        &manager.missions,
        player_id,
        base_islands,
    );
    let ghost start = roster@;
    let mut over: bool = false;
    let mut n: usize = 0;
    while n < targets.len()
        invariant
            n <= targets.len(),
            rows == board.rows@,
            lands == islands.islands@,
            missions == manager.missions@,
            sorted.len() == targets.len(),
            forall|i: int| 0 <= i < sorted.len() ==> #[trigger] sorted[i] == order[i],
            forall|i: int| 0 <= i < sorted.len() ==> #[trigger] sorted[i] < targets.len(),
            (roster@, over) == allocated(
                rows,
                lands,
                missions,
                player_id,
                targets@,
                order,
                start,
                n as int,
            ),
        decreases targets.len() - n,
    {
        let target = targets[sorted[n]];
        assert(target == targets@[order[n as int]]);
        if !over && !forbidden(board, islands, player_id, target) {
            let island = target.objective.target_island;
            let sent: usize = count_missions_to(board, &manager.missions, player_id, island);
            let left: usize = target.objective.needed_infantry.0.saturating_sub(sent);
            serve(&mut roster, island, left);
            over = roster.empty.len() == 0 && roster.loaded.len() == 0;
        }
        n += 1;
    }
    let ghost added = roster.added@;
    let mut k: usize = 0;
    while k < roster.added.len()
        invariant
            k <= roster.added.len(),
            added == roster.added@,
            manager.missions@ == missions + added.take(k as int),
        decreases roster.added.len() - k,
    {
        manager.missions.push(roster.added[k]);
        assert(added.take(k + 1) =~= added.take(k as int).push(added[k as int]));
        k += 1;
    }
    assert(added.take(k as int) =~= added);
}

/// No transport stands in two places: among what is left and what was given out every transport
/// occurs once, and so does every infantry unit that waits to be fetched.
pub open spec fn units_apart(a: Allocation) -> bool {
    &&& forall|i: int, j: int|
        0 <= i < j < a.added.len() ==> (#[trigger] a.added[i]).transport_entity != (
        #[trigger] a.added[j]).transport_entity
    &&& forall|i: int, j: int|
        0 <= i < a.added.len() && 0 <= j < a.loaded.len() ==> (
        #[trigger] a.added[i]).transport_entity != (#[trigger] a.loaded[j]).0
    &&& forall|i: int, j: int|
        0 <= i < a.added.len() && 0 <= j < a.empty.len() ==> (
        #[trigger] a.added[i]).transport_entity != #[trigger] a.empty[j]
    &&& forall|i: int, j: int|
        0 <= i < j < a.loaded.len() ==> (#[trigger] a.loaded[i]).0 != (#[trigger] a.loaded[j]).0
    &&& forall|i: int, j: int|
        0 <= i < j < a.empty.len() ==> #[trigger] a.empty[i] != #[trigger] a.empty[j]
    &&& forall|i: int, j: int|
        0 <= i < a.loaded.len() && 0 <= j < a.empty.len() ==> (#[trigger] a.loaded[i]).0
            != #[trigger] a.empty[j]
    &&& forall|i: int, j: int|
        0 <= i < j < a.infantry.len() ==> #[trigger] a.infantry[i] != #[trigger] a.infantry[j]
    &&& forall|i: int, j: int|
        0 <= i < j < a.added.len() && (#[trigger] a.added[i]).phase == TransportPhase::Pickup && (
        #[trigger] a.added[j]).phase == TransportPhase::Pickup ==> a.added[i].cargo_entity
            != a.added[j].cargo_entity
    &&& forall|i: int, j: int|
        0 <= i < a.added.len() && 0 <= j < a.infantry.len() && (#[trigger] a.added[i]).phase
            == TransportPhase::Pickup ==> a.added[i].cargo_entity != #[trigger] a.infantry[j]
}

proof fn lemma_send_loaded_apart(a: Allocation, island: IslandId, k: int)
    requires
        units_apart(a),
    ensures
        units_apart(send_loaded(a, island, k)),
    decreases k,
{
    if k > 0 && a.loaded.len() > 0 {
        let (transport_entity, cargo_entity) = a.loaded.last();
        let b = Allocation {
            loaded: a.loaded.drop_last(),
            added: a.added.push(
                TransportMission {
                    transport_entity,
                    cargo_entity,
                    phase: TransportPhase::Transit,
                    target_island: Some(island),
                },
            ),
            ..a
        };
        assert(units_apart(b));
        lemma_send_loaded_apart(b, island, k - 1);
    }
}

proof fn lemma_send_empty_apart(a: Allocation, island: IslandId, k: int)
    requires
        units_apart(a),
    ensures
        units_apart(send_empty(a, island, k)),
    decreases k,
{
    if k > 0 && a.empty.len() > 0 && a.infantry.len() > 0 {
        let b = Allocation {
            empty: a.empty.drop_last(),
            infantry: a.infantry.drop_last(),
            added: a.added.push(
                TransportMission {
                    transport_entity: a.empty.last(),
                    cargo_entity: a.infantry.last(),
                    phase: TransportPhase::Pickup,
                    target_island: Some(island),
                },
            ),
            ..a
        };
        assert(units_apart(b));
        lemma_send_empty_apart(b, island, k - 1);
    }
}

proof fn lemma_allocated_apart(
    rows: Seq<BoardRow>,
    islands: Seq<Island>,
    missions: Seq<TransportMission>,
    player: PlayerId,
    targets: Seq<IslandTarget>,
    order: Seq<int>,
    start: Allocation,
    n: int,
)
    requires
        units_apart(start),
    ensures
        units_apart(
            allocated(rows, islands, missions, player, targets, order, start, n).0,
        ),
    decreases n,
{
    if n > 0 {
        lemma_allocated_apart(rows, islands, missions, player, targets, order, start, n - 1);
        let a = allocated(rows, islands, missions, player, targets, order, start, n - 1).0;
        let target = targets[order[n - 1]];
        let island = target.objective.target_island;
        let k = still_needed(rows, missions, player, target);
        let sent = if k <= a.loaded.len() {
            k
        } else {
            a.loaded.len() as int
        };
        lemma_send_loaded_apart(a, island, k);
        lemma_send_empty_apart(send_loaded(a, island, k), island, k - sent);
    }
}

/// The entity is that of one of the first `n` rows, and that row carries a unit if and only if
/// `carrying`.
spec fn from_row(rows: Seq<BoardRow>, e: Entity, carrying: bool, n: int) -> bool {
    exists|k: int|
        0 <= k < n && (#[trigger] rows[k]).entity == e && (first_loaded(rows[k]) is Some
            <==> carrying)
}

proof fn lemma_from_row_grows(rows: Seq<BoardRow>, e: Entity, carrying: bool, n: int)
    requires
        from_row(rows, e, carrying, n - 1),
    ensures
        from_row(rows, e, carrying, n),
{
    let k = choose|k: int|
        0 <= k < n - 1 && (#[trigger] rows[k]).entity == e && (first_loaded(rows[k]) is Some
            <==> carrying);
    assert(0 <= k < n && rows[k].entity == e);
}

proof fn lemma_free_lists(
    rows: Seq<BoardRow>,
    islands: Seq<Island>,
    missions: Seq<TransportMission>,
    player: PlayerId,
    base_islands: Seq<IslandId>,
    n: int,
)
    requires
        rows_distinct(rows),
        0 <= n <= rows.len(),
    ensures
        forall|i: int|
            0 <= i < free_loaded(rows, missions, player, n).len() ==> from_row(
                rows,
                (#[trigger] free_loaded(rows, missions, player, n)[i]).0,
                true,
                n,
            ),
        forall|i: int|
            0 <= i < free_empty(rows, missions, player, n).len() ==> from_row(
                rows,
                #[trigger] free_empty(rows, missions, player, n)[i],
                false,
                n,
            ),
        forall|i: int|
            0 <= i < free_infantry(rows, islands, missions, player, base_islands, n).len() ==> (
            exists|k: int|
                0 <= k < n && (#[trigger] rows[k]).entity == #[trigger] free_infantry(
                    rows,
                    islands,
                    missions,
                    player,
                    base_islands,
                    n,
                )[i]),
        forall|i: int, j: int|
            0 <= i < j < free_loaded(rows, missions, player, n).len() ==> (
            #[trigger] free_loaded(rows, missions, player, n)[i]).0 != (
            #[trigger] free_loaded(rows, missions, player, n)[j]).0,
        forall|i: int, j: int|
            0 <= i < j < free_empty(rows, missions, player, n).len() ==> #[trigger] free_empty(
                rows,
                missions,
                player,
                n,
            )[i] != #[trigger] free_empty(rows, missions, player, n)[j],
        forall|i: int, j: int|
            0 <= i < j < free_infantry(rows, islands, missions, player, base_islands, n).len()
                ==> #[trigger] free_infantry(rows, islands, missions, player, base_islands, n)[i]
                != #[trigger] free_infantry(rows, islands, missions, player, base_islands, n)[j],
    decreases n,
{
    if n > 0 {
        lemma_free_lists(rows, islands, missions, player, base_islands, n - 1);
        let last = rows[n - 1];
        let loaded = free_loaded(rows, missions, player, n - 1);
        let empty = free_empty(rows, missions, player, n - 1);
        let infantry = free_infantry(rows, islands, missions, player, base_islands, n - 1);
        assert forall|i: int| 0 <= i < loaded.len() implies (#[trigger] loaded[i]).0 != last.entity
            && from_row(rows, loaded[i].0, true, n) by {
            let k = choose|k: int|
                0 <= k < n - 1 && (#[trigger] rows[k]).entity == loaded[i].0 && (first_loaded(
                    rows[k],
                ) is Some <==> true);
            assert(rows[k].entity != rows[n - 1].entity);
            lemma_from_row_grows(rows, loaded[i].0, true, n);
        }
        assert forall|i: int| 0 <= i < empty.len() implies #[trigger] empty[i] != last.entity
            && from_row(rows, empty[i], false, n) by {
            let k = choose|k: int|
                0 <= k < n - 1 && (#[trigger] rows[k]).entity == empty[i] && (first_loaded(rows[k]) is Some
                    <==> false);
            assert(rows[k].entity != rows[n - 1].entity);
            lemma_from_row_grows(rows, empty[i], false, n);
        }
        assert forall|i: int| 0 <= i < infantry.len() implies #[trigger] infantry[i] != last.entity
            && (exists|k: int| 0 <= k < n && (#[trigger] rows[k]).entity == infantry[i]) by {
            let k = choose|k: int| 0 <= k < n - 1 && (#[trigger] rows[k]).entity == infantry[i];
            assert(rows[k].entity != rows[n - 1].entity);
            assert(0 <= k < n && rows[k].entity == infantry[i]);
        }
        assert(first_loaded(last) is Some ==> from_row(rows, last.entity, true, n));
        assert(first_loaded(last) is None ==> from_row(rows, last.entity, false, n));
    }
}

/// Every transport gets at most one new mission, and every infantry unit is fetched by at most one
/// transport.
pub proof fn law_missions_share_no_unit(
    rows: Seq<BoardRow>,
    islands: Seq<Island>,
    registry: MasterDataRegistry,
    missions: Seq<TransportMission>,
    player: PlayerId,
    base_islands: Seq<IslandId>,
    target_islands: Seq<IslandId>,
    i: int,
    j: int,
)
    requires
        rows_distinct(rows),
        0 <= i < j < new_missions(
            rows,
            islands,
            registry,
            missions,
            player,
            base_islands,
            target_islands,
        ).len(),
    ensures
        ({
            let added = new_missions(
                rows,
                islands,
                registry,
                missions,
                player,
                base_islands,
                target_islands,
            );
            &&& added[i].transport_entity != added[j].transport_entity
            &&& added[i].phase == TransportPhase::Pickup && added[j].phase == TransportPhase::Pickup
                ==> added[i].cargo_entity != added[j].cargo_entity
        }),
{
    let n = rows.len() as int;
    lemma_free_lists(rows, islands, missions, player, base_islands, n);
    let start = free_units(rows, islands, missions, player, base_islands);
    assert forall|a: int, b: int|
        0 <= a < start.loaded.len() && 0 <= b < start.empty.len() implies (
    #[trigger] start.loaded[a]).0 != #[trigger] start.empty[b] by {
        let x = choose|k: int|
            0 <= k < n && (#[trigger] rows[k]).entity == start.loaded[a].0 && (first_loaded(rows[k]) is Some
                <==> true);
        let y = choose|k: int|
            0 <= k < n && (#[trigger] rows[k]).entity == start.empty[b] && (first_loaded(rows[k]) is Some
                <==> false);
        assert(from_row(rows, start.loaded[a].0, true, n));
        assert(from_row(rows, start.empty[b], false, n));
        if x < y {
            assert(rows[x].entity != rows[y].entity);
        } else if y < x {
            assert(rows[y].entity != rows[x].entity);
        }
    }
    assert(units_apart(start));
    let targets = island_targets(
        rows,
        islands,
        registry,
        player,
        target_islands,
        target_islands.len() as int,
    );
    let order = sort_order(target_keys(targets, base_islands));
    lemma_allocated_apart(
        rows,
        islands,
        missions,
        player,
        targets,
        order,
        start,
        targets.len() as int,
    );
}

proof fn lemma_send_lengths(a: Allocation, island: IslandId, k: int)
    ensures
        send_loaded(a, island, k).added.len() <= a.added.len() + (if k > 0 { k } else { 0 }),
        send_empty(a, island, k).added.len() <= a.added.len() + (if k > 0 { k } else { 0 }),
        send_loaded(a, island, k).added.len() - a.added.len() == (if k <= 0 {
            0
        } else if k <= a.loaded.len() {
            k
        } else {
            a.loaded.len() as int
        }),
    decreases k,
{
    if k > 0 {
        if a.loaded.len() > 0 {
            let (transport_entity, cargo_entity) = a.loaded.last();
            lemma_send_lengths(
                Allocation {
                    loaded: a.loaded.drop_last(),
                    added: a.added.push(
                        TransportMission {
                            transport_entity,
                            cargo_entity,
                            phase: TransportPhase::Transit,
                            target_island: Some(island),
                        },
                    ),
                    ..a
                },
                island,
                k - 1,
            );
        }
        if a.empty.len() > 0 && a.infantry.len() > 0 {
            lemma_send_lengths(
                Allocation {
                    empty: a.empty.drop_last(),
                    infantry: a.infantry.drop_last(),
                    added: a.added.push(
                        TransportMission {
                            transport_entity: a.empty.last(),
                            cargo_entity: a.infantry.last(),
                            phase: TransportPhase::Pickup,
                            target_island: Some(island),
                        },
                    ),
                    ..a
                },
                island,
                k - 1,
            );
        }
    }
}

/// No target gets more new missions than it still needs.
pub proof fn law_no_target_is_overserved(a: Allocation, island: IslandId, k: int)
    requires
        0 <= k,
    ensures
        a.added.len() <= served(a, island, k).added.len() <= a.added.len() + k,
{
    let sent = if k <= a.loaded.len() {
        k
    } else {
        a.loaded.len() as int
    };
    lemma_send_lengths(a, island, k);
    lemma_send_lengths(send_loaded(a, island, k), island, k - sent);
    lemma_send_empty_grows(send_loaded(a, island, k), island, k - sent);
}

proof fn lemma_send_empty_grows(a: Allocation, island: IslandId, k: int)
    ensures
        a.added.len() <= send_empty(a, island, k).added.len(),
    decreases k,
{
    if k > 0 && a.empty.len() > 0 && a.infantry.len() > 0 {
        lemma_send_empty_grows(
            Allocation {
                empty: a.empty.drop_last(),
                infantry: a.infantry.drop_last(),
                added: a.added.push(
                    TransportMission {
                        transport_entity: a.empty.last(),
                        cargo_entity: a.infantry.last(),
                        phase: TransportPhase::Pickup,
                        target_island: Some(island),
                    },
                ),
                ..a
            },
            island,
            k - 1,
        );
    }
}

/// One of the targets is the island and may be invaded.
pub open spec fn is_open_target(
    rows: Seq<BoardRow>,
    islands: Seq<Island>,
    player: PlayerId,
    targets: Seq<IslandTarget>,
    island: IslandId,
) -> bool {
    exists|k: int|
        0 <= k < targets.len() && (#[trigger] targets[k]).objective.target_island == island
            && !is_forbidden(rows, islands, player, targets[k])
}

/// The mission takes no unit away from another mission of the player and goes to an island that may
/// be invaded.
pub open spec fn is_proper_mission(
    rows: Seq<BoardRow>,
    islands: Seq<Island>,
    missions: Seq<TransportMission>,
    player: PlayerId,
    targets: Seq<IslandTarget>,
    m: TransportMission,
) -> bool {
    &&& !transport_busy(rows, missions, player, m.transport_entity)
    &&& m.phase == TransportPhase::Pickup ==> !cargo_busy(rows, missions, player, m.cargo_entity)
    &&& m.target_island matches Some(island) && is_open_target(
        rows,
        islands,
        player,
        targets,
        island,
    )
}

/// What was given out so far is proper, and nothing busy is left to give out.
spec fn is_proper(
    rows: Seq<BoardRow>,
    islands: Seq<Island>,
    missions: Seq<TransportMission>,
    player: PlayerId,
    targets: Seq<IslandTarget>,
    a: Allocation,
) -> bool {
    &&& forall|i: int|
        0 <= i < a.added.len() ==> is_proper_mission(
            rows,
            islands,
            missions,
            player,
            targets,
            #[trigger] a.added[i],
        )
    &&& forall|i: int|
        0 <= i < a.loaded.len() ==> !transport_busy(
            rows,
            missions,
            player,
            (#[trigger] a.loaded[i]).0,
        )
    &&& forall|i: int|
        0 <= i < a.empty.len() ==> !transport_busy(rows, missions, player, #[trigger] a.empty[i])
    &&& forall|i: int|
        0 <= i < a.infantry.len() ==> !cargo_busy(rows, missions, player, #[trigger] a.infantry[i])
}

proof fn lemma_send_loaded_proper(
    rows: Seq<BoardRow>,
    islands: Seq<Island>,
    missions: Seq<TransportMission>,
    player: PlayerId,
    targets: Seq<IslandTarget>,
    a: Allocation,
    island: IslandId,
    k: int,
)
    requires
        is_proper(rows, islands, missions, player, targets, a),
        is_open_target(rows, islands, player, targets, island),
    ensures
        is_proper(rows, islands, missions, player, targets, send_loaded(a, island, k)),
    decreases k,
{
    if k > 0 && a.loaded.len() > 0 {
        let (transport_entity, cargo_entity) = a.loaded.last();
        let b = Allocation {
            loaded: a.loaded.drop_last(),
            added: a.added.push(
                TransportMission {
                    transport_entity,
                    cargo_entity,
                    phase: TransportPhase::Transit,
                    target_island: Some(island),
                },
            ),
            ..a
        };
        assert(is_proper(rows, islands, missions, player, targets, b));
        lemma_send_loaded_proper(rows, islands, missions, player, targets, b, island, k - 1);
    }
}

proof fn lemma_send_empty_proper(
    rows: Seq<BoardRow>,
    islands: Seq<Island>,
    missions: Seq<TransportMission>,
    player: PlayerId,
    targets: Seq<IslandTarget>,
    a: Allocation,
    island: IslandId,
    k: int,
)
    requires
        is_proper(rows, islands, missions, player, targets, a),
        is_open_target(rows, islands, player, targets, island),
    ensures
        is_proper(rows, islands, missions, player, targets, send_empty(a, island, k)),
    decreases k,
{
    if k > 0 && a.empty.len() > 0 && a.infantry.len() > 0 {
        let b = Allocation {
            empty: a.empty.drop_last(),
            infantry: a.infantry.drop_last(),
            added: a.added.push(
                TransportMission {
                    transport_entity: a.empty.last(),
                    cargo_entity: a.infantry.last(),
                    phase: TransportPhase::Pickup,
                    target_island: Some(island),
                },
            ),
            ..a
        };
        assert(is_proper(rows, islands, missions, player, targets, b));
        lemma_send_empty_proper(rows, islands, missions, player, targets, b, island, k - 1);
    }
}

proof fn lemma_allocated_proper(
    rows: Seq<BoardRow>,
    islands: Seq<Island>,
    missions: Seq<TransportMission>,
    player: PlayerId,
    targets: Seq<IslandTarget>,
    order: Seq<int>,
    start: Allocation,
    n: int,
)
    requires
        is_proper(rows, islands, missions, player, targets, start),
        n <= order.len(),
        forall|i: int| 0 <= i < order.len() ==> 0 <= #[trigger] order[i] < targets.len(),
    ensures
        is_proper(
            rows,
            islands,
            missions,
            player,
            targets,
            allocated(rows, islands, missions, player, targets, order, start, n).0,
        ),
    decreases n,
{
    if n > 0 {
        lemma_allocated_proper(rows, islands, missions, player, targets, order, start, n - 1);
        let a = allocated(rows, islands, missions, player, targets, order, start, n - 1).0;
        let target = targets[order[n - 1]];
        let island = target.objective.target_island;
        if !is_forbidden(rows, islands, player, target) {
            let k = still_needed(rows, missions, player, target);
            let sent = if k <= a.loaded.len() {
                k
            } else {
                a.loaded.len() as int
            };
            assert(is_open_target(rows, islands, player, targets, island));
            lemma_send_loaded_proper(rows, islands, missions, player, targets, a, island, k);
            lemma_send_empty_proper(
                rows,
                islands,
                missions,
                player,
                targets,
                send_loaded(a, island, k),
                island,
                k - sent,
            );
        }
    }
}

proof fn lemma_free_units_idle(
    rows: Seq<BoardRow>,
    islands: Seq<Island>,
    missions: Seq<TransportMission>,
    player: PlayerId,
    base_islands: Seq<IslandId>,
    n: int,
)
    ensures
        forall|i: int|
            0 <= i < free_loaded(rows, missions, player, n).len() ==> !transport_busy(
                rows,
                missions,
                player,
                (#[trigger] free_loaded(rows, missions, player, n)[i]).0,
            ),
        forall|i: int|
            0 <= i < free_empty(rows, missions, player, n).len() ==> !transport_busy(
                rows,
                missions,
                player,
                #[trigger] free_empty(rows, missions, player, n)[i],
            ),
        forall|i: int|
            0 <= i < free_infantry(rows, islands, missions, player, base_islands, n).len()
                ==> !cargo_busy(
                rows,
                missions,
                player,
                #[trigger] free_infantry(rows, islands, missions, player, base_islands, n)[i],
            ),
    decreases n,
{
    if n > 0 {
        lemma_free_units_idle(rows, islands, missions, player, base_islands, n - 1);
        let last = rows[n - 1];
        let loaded = free_loaded(rows, missions, player, n - 1);
        let empty = free_empty(rows, missions, player, n - 1);
        let infantry = free_infantry(rows, islands, missions, player, base_islands, n - 1);
        assert(forall|i: int|
            0 <= i < loaded.len() ==> !transport_busy(
                rows,
                missions,
                player,
                (#[trigger] loaded[i]).0,
            ));
        assert(forall|i: int|
            0 <= i < empty.len() ==> !transport_busy(rows, missions, player, #[trigger] empty[i]));
        assert(forall|i: int|
            0 <= i < infantry.len() ==> !cargo_busy(rows, missions, player, #[trigger] infantry[i]));
    }
}

/// A new mission takes no transport that is on a mission of the player, fetches no infantry that
/// such a mission waits for or carries, and never goes to a stronghold that may not be invaded.
pub proof fn law_new_missions_are_proper(
    rows: Seq<BoardRow>,
    islands: Seq<Island>,
    registry: MasterDataRegistry,
    missions: Seq<TransportMission>,
    player: PlayerId,
    base_islands: Seq<IslandId>,
    target_islands: Seq<IslandId>,
    i: int,
)
    requires
        0 <= i < new_missions(
            rows,
            islands,
            registry,
            missions,
            player,
            base_islands,
            target_islands,
        ).len(),
    ensures
        is_proper_mission(
            rows,
            islands,
            missions,
            player,
            island_targets(
                rows,
                islands,
                registry,
                player,
                target_islands,
                target_islands.len() as int,
            ),
            new_missions(
                rows,
                islands,
                registry,
                missions,
                player,
                base_islands,
                target_islands,
            )[i],
        ),
{
    let targets = island_targets(
        rows,
        islands,
        registry,
        player,
        target_islands,
        target_islands.len() as int,
    );
    let keys = target_keys(targets, base_islands);
    lemma_sort_prefix(keys, keys.len() as int);
    lemma_free_units_idle(rows, islands, missions, player, base_islands, rows.len() as int);
    lemma_allocated_proper(
        rows,
        islands,
        missions,
        player,
        targets,
        sort_order(keys),
        free_units(rows, islands, missions, player, base_islands),
        targets.len() as int,
    );
}

/// How many of the first `n` missions go to the island.
pub open spec fn added_to(added: Seq<TransportMission>, island: IslandId, n: int) -> nat
    decreases n,
{
    if n <= 0 {
        0
    } else {
        added_to(added, island, n - 1) + (if added[n - 1].target_island == Some(island) {
            1nat
        } else {
            0nat
        })
    }
}

proof fn lemma_added_prefix(
    added: Seq<TransportMission>,
    m: TransportMission,
    island: IslandId,
    n: int,
)
    requires
        0 <= n <= added.len(),
    ensures
        added_to(added.push(m), island, n) == added_to(added, island, n),
    decreases n,
{
    if n > 0 {
        lemma_added_prefix(added, m, island, n - 1);
    }
}

proof fn lemma_one_added(added: Seq<TransportMission>, m: TransportMission, island: IslandId)
    ensures
        added_to(added.push(m), island, added.len() + 1int) == added_to(
            added,
            island,
            added.len() as int,
        ) + (if m.target_island == Some(island) {
            1nat
        } else {
            0nat
        }),
{
    lemma_added_prefix(added, m, island, added.len() as int);
}

proof fn lemma_loaded_count(a: Allocation, to: IslandId, k: int, island: IslandId)
    ensures
        ({
            let b = send_loaded(a, to, k);
            &&& added_to(b.added, island, b.added.len() as int) == added_to(
                a.added,
                island,
                a.added.len() as int,
            ) + (if to != island || k <= 0 {
                0
            } else if k <= a.loaded.len() {
                k
            } else {
                a.loaded.len() as int
            })
        }),
    decreases k,
{
    if k > 0 && a.loaded.len() > 0 {
        let (transport_entity, cargo_entity) = a.loaded.last();
        let m = TransportMission {
            transport_entity,
            cargo_entity,
            phase: TransportPhase::Transit,
            target_island: Some(to),
        };
        lemma_one_added(a.added, m, island);
        lemma_loaded_count(
            Allocation { loaded: a.loaded.drop_last(), added: a.added.push(m), ..a },
            to,
            k - 1,
            island,
        );
    }
}

proof fn lemma_empty_count(a: Allocation, to: IslandId, k: int, island: IslandId)
    ensures
        ({
            let b = send_empty(a, to, k);
            &&& added_to(b.added, island, b.added.len() as int) <= added_to(
                a.added,
                island,
                a.added.len() as int,
            ) + (if to != island || k <= 0 {
                0
            } else {
                k
            })
        }),
    decreases k,
{
    if k > 0 && a.empty.len() > 0 && a.infantry.len() > 0 {
        let m = TransportMission {
            transport_entity: a.empty.last(),
            cargo_entity: a.infantry.last(),
            phase: TransportPhase::Pickup,
            target_island: Some(to),
        };
        lemma_one_added(a.added, m, island);
        lemma_empty_count(
            Allocation {
                empty: a.empty.drop_last(),
                infantry: a.infantry.drop_last(),
                added: a.added.push(m),
                ..a
            },
            to,
            k - 1,
            island,
        );
    }
}

proof fn lemma_allocated_count(
    rows: Seq<BoardRow>,
    islands: Seq<Island>,
    missions: Seq<TransportMission>,
    player: PlayerId,
    targets: Seq<IslandTarget>,
    order: Seq<int>,
    start: Allocation,
    t: int,
    n: int,
)
    requires
        start.added.len() == 0,
        0 <= t < targets.len(),
        n <= order.len(),
        forall|i: int| 0 <= i < order.len() ==> 0 <= #[trigger] order[i] < targets.len(),
        forall|i: int, j: int|
            0 <= i < j < order.len() ==> #[trigger] order[i] != #[trigger] order[j],
        forall|i: int, j: int|
            0 <= i < j < targets.len() ==> (#[trigger] targets[i]).objective.target_island != (
            #[trigger] targets[j]).objective.target_island,
    ensures
        ({
            let a = allocated(rows, islands, missions, player, targets, order, start, n).0;
            let count = added_to(
                a.added,
                targets[t].objective.target_island,
                a.added.len() as int,
            );
            &&& count <= still_needed(rows, missions, player, targets[t])
            &&& (forall|j: int| 0 <= j < n ==> #[trigger] order[j] != t) ==> count == 0
        }),
    decreases n,
{
    if n > 0 {
        lemma_allocated_count(
            rows,
            islands,
            missions,
            player,
            targets,
            order,
            start,
            t,
            n - 1,
        );
        let a = allocated(rows, islands, missions, player, targets, order, start, n - 1).0;
        let target = targets[order[n - 1]];
        let to = target.objective.target_island;
        let island = targets[t].objective.target_island;
        let k = still_needed(rows, missions, player, target);
        let sent = if k <= a.loaded.len() {
            k
        } else {
            a.loaded.len() as int
        };
        lemma_loaded_count(a, to, k, island);
        lemma_empty_count(send_loaded(a, to, k), to, k - sent, island);
        if order[n - 1] == t {
            assert forall|j: int| 0 <= j < n - 1 implies #[trigger] order[j] != t by {
                assert(order[j] != order[n - 1]);
            }
        } else if order[n - 1] < t {
            assert(targets[order[n - 1]].objective.target_island
                != targets[t].objective.target_island);
        } else {
            assert(targets[t].objective.target_island
                != targets[order[n - 1]].objective.target_island);
        }
    }
}

proof fn lemma_numbered(islands: Seq<Island>, id: IslandId, i: int)
    requires
        0 <= i <= islands.len(),
    ensures
        island_numbered(islands, id, i) matches Some(k) ==> islands[k].id == id,
    decreases islands.len() - i,
{
    if i < islands.len() && islands[i].id != id {
        lemma_numbered(islands, id, i + 1);
    }
}

proof fn lemma_targets_apart(
    rows: Seq<BoardRow>,
    islands: Seq<Island>,
    registry: MasterDataRegistry,
    player: PlayerId,
    target_islands: Seq<IslandId>,
    n: int,
)
    requires
        0 <= n <= target_islands.len(),
        target_islands.no_duplicates(),
    ensures
        ({
            let targets = island_targets(rows, islands, registry, player, target_islands, n);
            &&& forall|i: int|
                0 <= i < targets.len() ==> exists|k: int|
                    0 <= k < n && #[trigger] target_islands[k] == (
                    #[trigger] targets[i]).objective.target_island
            &&& forall|i: int, j: int|
                0 <= i < j < targets.len() ==> (#[trigger] targets[i]).objective.target_island != (
                #[trigger] targets[j]).objective.target_island
        }),
    decreases n,
{
    if n > 0 {
        lemma_targets_apart(rows, islands, registry, player, target_islands, n - 1);
        let rest = island_targets(rows, islands, registry, player, target_islands, n - 1);
        let all = island_targets(rows, islands, registry, player, target_islands, n);
        lemma_numbered(islands, target_islands[n - 1], 0);
        assert forall|i: int| 0 <= i < rest.len() implies (
        #[trigger] rest[i]).objective.target_island != target_islands[n - 1] && all[i] == rest[i] by {
            let k = choose|k: int|
                0 <= k < n - 1 && #[trigger] target_islands[k] == rest[i].objective.target_island;
            assert(target_islands[k] != target_islands[n - 1]);
        }
        assert forall|i: int| 0 <= i < all.len() implies exists|k: int|
            0 <= k < n && #[trigger] target_islands[k] == (
            #[trigger] all[i]).objective.target_island by {
            if i < rest.len() {
                assert(all[i] == rest[i]);
                let k = choose|k: int|
                    0 <= k < n - 1 && #[trigger] target_islands[k]
                        == rest[i].objective.target_island;
                assert(0 <= k < n && target_islands[k] == all[i].objective.target_island);
            } else {
                assert(target_islands[n - 1] == all[i].objective.target_island);
            }
        }
        assert forall|i: int, j: int| 0 <= i < j < all.len() implies (
        #[trigger] all[i]).objective.target_island != (
        #[trigger] all[j]).objective.target_island by {
            assert(all[i] == rest[i]);
            if j < rest.len() {
                assert(all[j] == rest[j]);
            }
        }
    }
}

proof fn lemma_missions_joined(
    rows: Seq<BoardRow>,
    missions: Seq<TransportMission>,
    added: Seq<TransportMission>,
    player: PlayerId,
    island: IslandId,
    n: int,
)
    requires
        0 <= n <= missions.len() + added.len(),
    ensures
        n <= missions.len() ==> missions_to(rows, missions + added, player, island, n)
            == missions_to(rows, missions, player, island, n),
        n > missions.len() ==> missions_to(rows, missions + added, player, island, n)
            <= missions_to(rows, missions, player, island, missions.len() as int) + added_to(
            added,
            island,
            n - missions.len(),
        ),
    decreases n,
{
    if n > 0 {
        lemma_missions_joined(rows, missions, added, player, island, n - 1);
        let all = missions + added;
        if n <= missions.len() {
            assert(all[n - 1] == missions[n - 1]);
        } else {
            assert(all[n - 1] == added[n - 1 - missions.len()]);
        }
    }
}

/// The new missions never send more to an island than it needs: old and new missions of the
/// player to it are together no more than the old ones were, or than the infantry that the island
/// needs.
pub proof fn law_no_island_is_overserved(
    rows: Seq<BoardRow>,
    islands: Seq<Island>,
    registry: MasterDataRegistry,
    missions: Seq<TransportMission>,
    player: PlayerId,
    base_islands: Seq<IslandId>,
    target_islands: Seq<IslandId>,
    t: int,
)
    requires
        target_islands.no_duplicates(),
        0 <= t < island_targets(
            rows,
            islands,
            registry,
            player,
            target_islands,
            target_islands.len() as int,
        ).len(),
    ensures
        ({
            let objective = island_targets(
                rows,
                islands,
                registry,
                player,
                target_islands,
                target_islands.len() as int,
            )[t].objective;
            let all = missions + new_missions(
                rows,
                islands,
                registry,
                missions,
                player,
                base_islands,
                target_islands,
            );
            let before = missions_to(
                rows,
                missions,
                player,
                objective.target_island,
                missions.len() as int,
            );
            let after = missions_to(
                rows,
                all,
                player,
                objective.target_island,
                all.len() as int,
            );
            after <= before || after <= objective.needed_infantry.0
        }),
{
    let targets = island_targets(
        rows,
        islands,
        registry,
        player,
        target_islands,
        target_islands.len() as int,
    );
    let keys = target_keys(targets, base_islands);
    let order = sort_order(keys);
    lemma_sort_prefix(keys, keys.len() as int);
    lemma_targets_apart(
        rows,
        islands,
        registry,
        player,
        target_islands,
        target_islands.len() as int,
    );
    assert forall|i: int, j: int| 0 <= i < j < order.len() implies #[trigger] order[i]
        != #[trigger] order[j] by {
        assert(stands_before(keys, order[i], order[j]));
        lemma_lex_irreflexive(keys[order[i]]);
    }
    lemma_allocated_count(
        rows,
        islands,
        missions,
        player,
        targets,
        order,
        free_units(rows, islands, missions, player, base_islands),
        t,
        targets.len() as int,
    );
    let added = new_missions(
        rows,
        islands,
        registry,
        missions,
        player,
        base_islands,
        target_islands,
    );
    lemma_missions_joined(
        rows,
        missions,
        added,
        player,
        targets[t].objective.target_island,
        (missions.len() + added.len()) as int,
    );
}

/// Nothing that is left can serve a target: no loaded transport, and no empty one together with
/// infantry.
pub open spec fn is_exhausted(a: Allocation) -> bool {
    a.loaded.len() == 0 && (a.empty.len() == 0 || a.infantry.len() == 0)
}

/// How many of `k` units can be sent with what is left.
spec fn can_send(a: Allocation, k: int) -> int {
    let pairs = if a.empty.len() <= a.infantry.len() {
        a.empty.len() as int
    } else {
        a.infantry.len() as int
    };
    if k <= 0 {
        0
    } else if k <= a.loaded.len() + pairs {
        k
    } else {
        a.loaded.len() + pairs
    }
}

proof fn lemma_send_loaded_exact(a: Allocation, to: IslandId, k: int, island: IslandId)
    requires
        0 <= k,
    ensures
        ({
            let b = send_loaded(a, to, k);
            let sent = if k <= a.loaded.len() {
                k
            } else {
                a.loaded.len() as int
            };
            &&& b.loaded.len() == a.loaded.len() - sent
            &&& b.empty == a.empty
            &&& b.infantry == a.infantry
            &&& b.added.len() == a.added.len() + sent
            &&& added_to(b.added, island, b.added.len() as int) == added_to(
                a.added,
                island,
                a.added.len() as int,
            ) + (if to == island {
                sent
            } else {
                0
            })
        }),
    decreases k,
{
    if k > 0 && a.loaded.len() > 0 {
        let (transport_entity, cargo_entity) = a.loaded.last();
        let m = TransportMission {
            transport_entity,
            cargo_entity,
            phase: TransportPhase::Transit,
            target_island: Some(to),
        };
        lemma_one_added(a.added, m, island);
        lemma_send_loaded_exact(
            Allocation { loaded: a.loaded.drop_last(), added: a.added.push(m), ..a },
            to,
            k - 1,
            island,
        );
    }
}

proof fn lemma_send_empty_exact(a: Allocation, to: IslandId, k: int, island: IslandId)
    requires
        0 <= k,
    ensures
        ({
            let b = send_empty(a, to, k);
            let pairs = if a.empty.len() <= a.infantry.len() {
                a.empty.len() as int
            } else {
                a.infantry.len() as int
            };
            let sent = if k <= pairs {
                k
            } else {
                pairs
            };
            &&& b.loaded == a.loaded
            &&& b.empty.len() == a.empty.len() - sent
            &&& b.infantry.len() == a.infantry.len() - sent
            &&& b.added.len() == a.added.len() + sent
            &&& added_to(b.added, island, b.added.len() as int) == added_to(
                a.added,
                island,
                a.added.len() as int,
            ) + (if to == island {
                sent
            } else {
                0
            })
        }),
    decreases k,
{
    if k > 0 && a.empty.len() > 0 && a.infantry.len() > 0 {
        let m = TransportMission {
            transport_entity: a.empty.last(),
            cargo_entity: a.infantry.last(),
            phase: TransportPhase::Pickup,
            target_island: Some(to),
        };
        lemma_one_added(a.added, m, island);
        lemma_send_empty_exact(
            Allocation {
                empty: a.empty.drop_last(),
                infantry: a.infantry.drop_last(),
                added: a.added.push(m),
                ..a
            },
            to,
            k - 1,
            island,
        );
    }
}

proof fn lemma_served_exact(a: Allocation, to: IslandId, k: int, island: IslandId)
    requires
        0 <= k,
    ensures
        ({
            let b = served(a, to, k);
            &&& added_to(b.added, island, b.added.len() as int) == added_to(
                a.added,
                island,
                a.added.len() as int,
            ) + (if to == island {
                can_send(a, k)
            } else {
                0
            })
            &&& can_send(a, k) < k ==> is_exhausted(b)
            &&& is_exhausted(a) ==> is_exhausted(b)
        }),
{
    let sent = if k <= a.loaded.len() {
        k
    } else {
        a.loaded.len() as int
    };
    lemma_send_loaded_exact(a, to, k, island);
    lemma_send_empty_exact(send_loaded(a, to, k), to, k - sent, island);
}

proof fn lemma_served_in_turn(
    rows: Seq<BoardRow>,
    islands: Seq<Island>,
    missions: Seq<TransportMission>,
    player: PlayerId,
    targets: Seq<IslandTarget>,
    order: Seq<int>,
    start: Allocation,
    a: int,
    b: int,
    n: int,
)
    requires
        start.added.len() == 0,
        0 <= a < order.len(),
        0 <= b < order.len(),
        0 <= n <= order.len(),
        forall|i: int| 0 <= i < order.len() ==> 0 <= #[trigger] order[i] < targets.len(),
        forall|i: int, j: int|
            0 <= i < j < order.len() ==> #[trigger] order[i] != #[trigger] order[j],
        forall|i: int, j: int|
            0 <= i < j < targets.len() ==> (#[trigger] targets[i]).objective.target_island != (
            #[trigger] targets[j]).objective.target_island,
        !is_forbidden(rows, islands, player, targets[order[a]]),
    ensures
        ({
            let (left, over) = allocated(
                rows,
                islands,
                missions,
                player,
                targets,
                order,
                start,
                n,
            );
            let of_a = added_to(
                left.added,
                targets[order[a]].objective.target_island,
                left.added.len() as int,
            );
            let of_b = added_to(
                left.added,
                targets[order[b]].objective.target_island,
                left.added.len() as int,
            );
            let need = still_needed(rows, missions, player, targets[order[a]]);
            &&& over ==> is_exhausted(left)
            &&& n <= a ==> of_a == 0
            &&& n <= b ==> of_b == 0
            &&& n > a ==> of_a == need || is_exhausted(left)
            &&& a < b && of_b > 0 ==> of_a == need
        }),
    decreases n,
{
    if n > 0 {
        lemma_served_in_turn(
            rows,
            islands,
            missions,
            player,
            targets,
            order,
            start,
            a,
            b,
            n - 1,
        );
        let (left, over) = allocated(
            rows,
            islands,
            missions,
            player,
            targets,
            order,
            start,
            n - 1,
        );
        let target = targets[order[n - 1]];
        let to = target.objective.target_island;
        let k = still_needed(rows, missions, player, target);
        let island_a = targets[order[a]].objective.target_island;
        let island_b = targets[order[b]].objective.target_island;
        lemma_served_exact(left, to, k, island_a);
        lemma_served_exact(left, to, k, island_b);
        lemma_same_place(targets, order, n - 1, a);
        lemma_same_place(targets, order, n - 1, b);
    }
}

proof fn lemma_same_place(targets: Seq<IslandTarget>, order: Seq<int>, x: int, y: int)
    requires
        0 <= x < order.len(),
        0 <= y < order.len(),
        forall|i: int| 0 <= i < order.len() ==> 0 <= #[trigger] order[i] < targets.len(),
        forall|i: int, j: int|
            0 <= i < j < order.len() ==> #[trigger] order[i] != #[trigger] order[j],
        forall|i: int, j: int|
            0 <= i < j < targets.len() ==> (#[trigger] targets[i]).objective.target_island != (
            #[trigger] targets[j]).objective.target_island,
    ensures
        x == y <==> targets[order[x]].objective.target_island
            == targets[order[y]].objective.target_island,
{
    if x < y {
        assert(order[x] != order[y]);
    } else if y < x {
        assert(order[y] != order[x]);
    }
    if order[x] < order[y] {
        assert(targets[order[x]].objective.target_island
            != targets[order[y]].objective.target_island);
    } else if order[y] < order[x] {
        assert(targets[order[y]].objective.target_island
            != targets[order[x]].objective.target_island);
    }
}

/// The first target comes before the second: it is on an island without a base of the player and
/// the other is not, or both are alike in that and it has the greater score.
pub open spec fn comes_first(
    base_islands: Seq<IslandId>,
    one: IslandTarget,
    other: IslandTarget,
) -> bool {
    let one_at_home = base_islands.contains(one.objective.target_island);
    let other_at_home = base_islands.contains(other.objective.target_island);
    (!one_at_home && other_at_home) || (one_at_home == other_at_home
        && one.objective.priority_score.0 > other.objective.priority_score.0)
}

proof fn lemma_order_of_targets(targets: Seq<IslandTarget>, base_islands: Seq<IslandId>)
    ensures
        ({
            let order = sort_order(target_keys(targets, base_islands));
            &&& order.len() == targets.len()
            &&& forall|i: int| 0 <= i < order.len() ==> 0 <= #[trigger] order[i] < targets.len()
            &&& forall|i: int, j: int|
                0 <= i < j < order.len() ==> #[trigger] order[i] != #[trigger] order[j]
            &&& forall|i: int, j: int|
                0 <= i < j < order.len() ==> !comes_first(
                    base_islands,
                    targets[#[trigger] order[j]],
                    targets[#[trigger] order[i]],
                )
            &&& forall|t: int| 0 <= t < targets.len() ==> #[trigger] order.contains(t)
        }),
{
    let keys = target_keys(targets, base_islands);
    let order = sort_order(keys);
    lemma_sort_prefix(keys, keys.len() as int);
    assert forall|i: int, j: int| 0 <= i < j < order.len() implies #[trigger] order[i]
        != #[trigger] order[j] by {
        assert(stands_before(keys, order[i], order[j]));
        lemma_lex_irreflexive(keys[order[i]]);
    }
    assert forall|i: int, j: int| 0 <= i < j < order.len() implies !comes_first(
        base_islands,
        targets[#[trigger] order[j]],
        targets[#[trigger] order[i]],
    ) by {
        let x = keys[order[i]];
        let y = keys[order[j]];
        assert(stands_before(keys, order[i], order[j]));
        assert(x == target_key(targets[order[i]], base_islands));
        assert(y == target_key(targets[order[j]], base_islands));
        reveal_with_fuel(lex_less, 3);
        assert(x.drop_first()[0] == x[1]);
        assert(y.drop_first()[0] == y[1]);
        assert(x.len() == 2 && y.len() == 2);
        if comes_first(base_islands, targets[order[j]], targets[order[i]]) {
            assert(x[0] > y[0] || (x[0] == y[0] && x[1] > y[1]));
        }
    }
}

/// The better rated island is served first. Of two islands that may be invaded, one of them comes
/// first: an island without a base of the player before one with a base, and otherwise the one with
/// the greater score. Unless that one has all the units that it needs, the other gets no new
/// mission.
pub proof fn law_better_rated_island_is_served_first(
    rows: Seq<BoardRow>,
    islands: Seq<Island>,
    registry: MasterDataRegistry,
    missions: Seq<TransportMission>,
    player: PlayerId,
    base_islands: Seq<IslandId>,
    target_islands: Seq<IslandId>,
    one: int,
    other: int,
)
    requires
        target_islands.no_duplicates(),
        ({
            let targets = island_targets(
                rows,
                islands,
                registry,
                player,
                target_islands,
                target_islands.len() as int,
            );
            &&& 0 <= one < targets.len()
            &&& 0 <= other < targets.len()
            &&& !is_forbidden(rows, islands, player, targets[one])
            &&& comes_first(base_islands, targets[one], targets[other])
        }),
    ensures
        ({
            let targets = island_targets(
                rows,
                islands,
                registry,
                player,
                target_islands,
                target_islands.len() as int,
            );
            let added = new_missions(
                rows,
                islands,
                registry,
                missions,
                player,
                base_islands,
                target_islands,
            );
            let better = targets[one].objective;
            let worse = targets[other].objective;
            (exists|m: int|
                0 <= m < added.len() && (#[trigger] added[m]).target_island == Some(
                    worse.target_island,
                )) ==> missions_to(
                rows,
                missions,
                player,
                better.target_island,
                missions.len() as int,
            ) + added_to(added, better.target_island, added.len() as int)
                >= better.needed_infantry.0
        }),
{
    let targets = island_targets(
        rows,
        islands,
        registry,
        player,
        target_islands,
        target_islands.len() as int,
    );
    let order = sort_order(target_keys(targets, base_islands));
    lemma_order_of_targets(targets, base_islands);
    lemma_targets_apart(
        rows,
        islands,
        registry,
        player,
        target_islands,
        target_islands.len() as int,
    );
    assert(order.contains(one));
    assert(order.contains(other));
    let a = choose|i: int| 0 <= i < order.len() && order[i] == one;
    let b = choose|i: int| 0 <= i < order.len() && order[i] == other;
    if b < a {
        assert(!comes_first(base_islands, targets[order[a]], targets[order[b]]));
    }
    assert(a < b);
    lemma_served_in_turn(
        rows,
        islands,
        missions,
        player,
        targets,
        order,
        free_units(rows, islands, missions, player, base_islands),
        a,
        b,
        targets.len() as int,
    );
    let added = new_missions(
        rows,
        islands,
        registry,
        missions,
        player,
        base_islands,
        target_islands,
    );
    let worse = targets[other].objective.target_island;
    if exists|m: int|
        0 <= m < added.len() && (#[trigger] added[m]).target_island == Some(worse) {
        let m = choose|m: int|
            0 <= m < added.len() && (#[trigger] added[m]).target_island == Some(worse);
        lemma_some_added(added, worse, m, added.len() as int);
    }
}

proof fn lemma_some_added(added: Seq<TransportMission>, island: IslandId, m: int, n: int)
    requires
        0 <= m < n <= added.len(),
        added[m].target_island == Some(island),
    ensures
        added_to(added, island, n) > 0,
    decreases n,
{
    if m < n - 1 {
        lemma_some_added(added, island, m, n - 1);
    }
}

/// The row is a transport of the player on the board that no mission has.
pub open spec fn is_idle_transport(
    row: BoardRow,
    missions: Seq<TransportMission>,
    player: PlayerId,
) -> bool {
    &&& row.faction == Some(player)
    &&& row.position is Some
    &&& row.cargo is Some
    &&& row.stats is Some && (row.stats->0.unit_type == UnitType::TransportHelicopter
        || row.stats->0.unit_type == UnitType::Lander)
    &&& forall|m: int|
        0 <= m < missions.len() ==> (#[trigger] missions[m]).transport_entity != row.entity
}

/// The row is infantry of the player on foot, on an island with a base of the player, that no
/// mission of the player waits for or carries.
pub open spec fn is_idle_infantry(
    rows: Seq<BoardRow>,
    islands: Seq<Island>,
    row: BoardRow,
    missions: Seq<TransportMission>,
    player: PlayerId,
    base_islands: Seq<IslandId>,
) -> bool {
    &&& row.faction == Some(player)
    &&& row.transporting is None
    &&& row.stats is Some && (row.stats->0.unit_type == UnitType::Infantry
        || row.stats->0.unit_type == UnitType::Mech)
    &&& row.position is Some && exists|h: int|
        0 <= h < islands.len() && (#[trigger] islands[h]).tiles@.contains(row.position->0)
            && base_islands.contains(islands[h].id) && forall|l: int|
            0 <= l < h ==> !(#[trigger] islands[l]).tiles@.contains(row.position->0)
    &&& forall|m: int|
        0 <= m < missions.len() && (#[trigger] missions[m]).cargo_entity == row.entity
            && missions[m].phase != TransportPhase::Return ==> !(exists|t: int|
            0 <= t < rows.len() && (#[trigger] rows[t]).entity == missions[m].transport_entity
                && rows[t].faction == Some(player))
}

proof fn lemma_one_row(rows: Seq<BoardRow>, i: int)
    requires
        rows_distinct(rows),
        0 <= i < rows.len(),
    ensures
        row_of(rows, rows[i].entity, 0) == Some(i),
{
    lemma_row_of(rows, rows[i].entity, 0);
    if let Some(k) = row_of(rows, rows[i].entity, 0) {
        if k < i {
            assert(rows[k].entity != rows[i].entity);
        }
    }
}

proof fn lemma_own_mission(
    rows: Seq<BoardRow>,
    m: TransportMission,
    player: PlayerId,
)
    requires
        rows_distinct(rows),
    ensures
        is_own_mission(rows, m, player) <==> exists|t: int|
            0 <= t < rows.len() && (#[trigger] rows[t]).entity == m.transport_entity
                && rows[t].faction == Some(player),
{
    lemma_row_of(rows, m.transport_entity, 0);
    if let Some(k) = row_of(rows, m.transport_entity, 0) {
        assert(rows[k].entity == m.transport_entity);
    }
    if exists|t: int|
        0 <= t < rows.len() && (#[trigger] rows[t]).entity == m.transport_entity && rows[t].faction
            == Some(player) {
        let t = choose|t: int|
            0 <= t < rows.len() && (#[trigger] rows[t]).entity == m.transport_entity
                && rows[t].faction == Some(player);
        lemma_one_row(rows, t);
    }
}

proof fn lemma_idle_transport(
    rows: Seq<BoardRow>,
    missions: Seq<TransportMission>,
    player: PlayerId,
    i: int,
)
    requires
        rows_distinct(rows),
        0 <= i < rows.len(),
    ensures
        is_free_transport(rows, missions, player, rows[i]) <==> is_idle_transport(
            rows[i],
            missions,
            player,
        ),
{
    if rows[i].faction == Some(player) {
        assert forall|m: int| 0 <= m < missions.len() implies (is_own_mission(
            rows,
            #[trigger] missions[m],
            player,
        ) && missions[m].transport_entity == rows[i].entity <==> missions[m].transport_entity
            == rows[i].entity) by {
            if missions[m].transport_entity == rows[i].entity {
                lemma_one_row(rows, i);
            }
        }
        if transport_busy(rows, missions, player, rows[i].entity) {
            let m = choose|m: int|
                0 <= m < missions.len() && is_own_mission(rows, #[trigger] missions[m], player)
                    && missions[m].transport_entity == rows[i].entity;
            assert(missions[m].transport_entity == rows[i].entity);
        } else {
            assert forall|m: int| 0 <= m < missions.len() implies (
            #[trigger] missions[m]).transport_entity != rows[i].entity by {
                assert(!(is_own_mission(rows, missions[m], player) && missions[m].transport_entity
                    == rows[i].entity));
            }
        }
    }
}

proof fn lemma_holding_from(islands: Seq<Island>, p: GridPosition, i: int)
    requires
        0 <= i <= islands.len(),
        forall|l: int| 0 <= l < i ==> !(#[trigger] islands[l]).tiles@.contains(p),
    ensures
        forall|h: int|
            0 <= h < islands.len() && (#[trigger] islands[h]).tiles@.contains(p) && (forall|l: int|
                0 <= l < h ==> !(#[trigger] islands[l]).tiles@.contains(p)) ==> island_holding(
                islands,
                p,
                i,
            ) == Some(h),
        island_holding(islands, p, i) matches Some(h) ==> 0 <= h < islands.len()
            && islands[h].tiles@.contains(p) && (forall|l: int|
            0 <= l < h ==> !(#[trigger] islands[l]).tiles@.contains(p)),
    decreases islands.len() - i,
{
    if i < islands.len() {
        if !islands[i].tiles@.contains(p) {
            lemma_holding_from(islands, p, i + 1);
        } else {
            assert forall|h: int|
                0 <= h < islands.len() && (#[trigger] islands[h]).tiles@.contains(p) && (forall|
                    l: int,
                | 0 <= l < h ==> !(#[trigger] islands[l]).tiles@.contains(p)) implies h == i by {
                if i < h {
                    assert(!islands[i].tiles@.contains(p));
                }
                if h < i {
                    assert(!islands[h].tiles@.contains(p));
                }
            }
        }
    }
}

proof fn lemma_idle_infantry(
    rows: Seq<BoardRow>,
    islands: Seq<Island>,
    missions: Seq<TransportMission>,
    player: PlayerId,
    base_islands: Seq<IslandId>,
    i: int,
)
    requires
        rows_distinct(rows),
        0 <= i < rows.len(),
    ensures
        is_free_infantry(rows, islands, missions, player, base_islands, rows[i])
            <==> is_idle_infantry(rows, islands, rows[i], missions, player, base_islands),
{
    let row = rows[i];
    assert forall|m: int| 0 <= m < missions.len() implies (is_own_mission(
        rows,
        #[trigger] missions[m],
        player,
    ) <==> exists|t: int|
        0 <= t < rows.len() && (#[trigger] rows[t]).entity == missions[m].transport_entity
            && rows[t].faction == Some(player)) by {
        lemma_own_mission(rows, missions[m], player);
    }
    if let Some(p) = row.position {
        lemma_holding_from(islands, p, 0);
    }
    if cargo_busy(rows, missions, player, row.entity) {
        let m = choose|m: int|
            0 <= m < missions.len() && is_own_mission(rows, #[trigger] missions[m], player)
                && missions[m].cargo_entity == row.entity && missions[m].phase
                != TransportPhase::Return;
        assert(missions[m].cargo_entity == row.entity);
    } else {
        assert forall|m: int|
            0 <= m < missions.len() && (#[trigger] missions[m]).cargo_entity == row.entity
                && missions[m].phase != TransportPhase::Return implies !(exists|t: int|
            0 <= t < rows.len() && (#[trigger] rows[t]).entity == missions[m].transport_entity
                && rows[t].faction == Some(player)) by {
            assert(!is_own_mission(rows, missions[m], player));
        }
    }
}

/// The new mission is carried out by an idle transport. One with a unit aboard carries its first
/// unit to the island at once; an empty one fetches idle infantry first.
pub open spec fn is_fit(
    rows: Seq<BoardRow>,
    islands: Seq<Island>,
    missions: Seq<TransportMission>,
    player: PlayerId,
    base_islands: Seq<IslandId>,
    m: TransportMission,
) -> bool {
    exists|i: int|
        {
            &&& 0 <= i < rows.len()
            &&& (#[trigger] rows[i]).entity == m.transport_entity
            &&& is_idle_transport(rows[i], missions, player)
            &&& if rows[i].cargo->0.loaded.len() > 0 {
                m.phase == TransportPhase::Transit && m.cargo_entity == rows[i].cargo->0.loaded[0]
            } else {
                m.phase == TransportPhase::Pickup && is_free_soldier(
                    rows,
                    islands,
                    missions,
                    player,
                    base_islands,
                    m.cargo_entity,
                )
            }
        }
}

/// The entity is idle infantry.
pub open spec fn is_free_soldier(
    rows: Seq<BoardRow>,
    islands: Seq<Island>,
    missions: Seq<TransportMission>,
    player: PlayerId,
    base_islands: Seq<IslandId>,
    e: Entity,
) -> bool {
    exists|j: int|
        0 <= j < rows.len() && (#[trigger] rows[j]).entity == e && is_idle_infantry(
            rows,
            islands,
            rows[j],
            missions,
            player,
            base_islands,
        )
}

/// The transport may set out as it is for a mission with the cargo.
spec fn may_set_out(
    rows: Seq<BoardRow>,
    missions: Seq<TransportMission>,
    player: PlayerId,
    e: Entity,
    cargo: Option<Entity>,
) -> bool {
    exists|i: int|
        {
            &&& 0 <= i < rows.len()
            &&& (#[trigger] rows[i]).entity == e
            &&& is_idle_transport(rows[i], missions, player)
            &&& cargo == (if rows[i].cargo->0.loaded.len() > 0 {
                Some(rows[i].cargo->0.loaded[0])
            } else {
                None
            })
        }
}

/// All that is left to give out is idle, and what was given out is fit.
spec fn all_fit(
    rows: Seq<BoardRow>,
    islands: Seq<Island>,
    missions: Seq<TransportMission>,
    player: PlayerId,
    base_islands: Seq<IslandId>,
    a: Allocation,
) -> bool {
    &&& forall|i: int|
        0 <= i < a.loaded.len() ==> may_set_out(
            rows,
            missions,
            player,
            (#[trigger] a.loaded[i]).0,
            Some(a.loaded[i].1),
        )
    &&& forall|i: int|
        0 <= i < a.empty.len() ==> may_set_out(rows, missions, player, #[trigger] a.empty[i], None)
    &&& forall|i: int|
        0 <= i < a.infantry.len() ==> is_free_soldier(
            rows,
            islands,
            missions,
            player,
            base_islands,
            #[trigger] a.infantry[i],
        )
    &&& forall|i: int|
        0 <= i < a.added.len() ==> is_fit(
            rows,
            islands,
            missions,
            player,
            base_islands,
            #[trigger] a.added[i],
        )
}

proof fn lemma_loaded_fit(
    rows: Seq<BoardRow>,
    islands: Seq<Island>,
    missions: Seq<TransportMission>,
    player: PlayerId,
    base_islands: Seq<IslandId>,
    a: Allocation,
    to: IslandId,
    k: int,
)
    requires
        all_fit(rows, islands, missions, player, base_islands, a),
    ensures
        all_fit(rows, islands, missions, player, base_islands, send_loaded(a, to, k)),
    decreases k,
{
    if k > 0 && a.loaded.len() > 0 {
        let (transport_entity, cargo_entity) = a.loaded.last();
        let m = TransportMission {
            transport_entity,
            cargo_entity,
            phase: TransportPhase::Transit,
            target_island: Some(to),
        };
        let b = Allocation { loaded: a.loaded.drop_last(), added: a.added.push(m), ..a };
        assert(may_set_out(rows, missions, player, transport_entity, Some(cargo_entity))) by {
            assert(a.loaded[a.loaded.len() - 1] == (transport_entity, cargo_entity));
        }
        let i = choose|i: int|
            {
                &&& 0 <= i < rows.len()
                &&& (#[trigger] rows[i]).entity == transport_entity
                &&& is_idle_transport(rows[i], missions, player)
                &&& Some(cargo_entity) == (if rows[i].cargo->0.loaded.len() > 0 {
                    Some(rows[i].cargo->0.loaded[0])
                } else {
                    None
                })
            };
        assert(rows[i].entity == m.transport_entity);
        assert(is_fit(rows, islands, missions, player, base_islands, m));
        assert(all_fit(rows, islands, missions, player, base_islands, b));
        lemma_loaded_fit(rows, islands, missions, player, base_islands, b, to, k - 1);
    }
}

proof fn lemma_empty_fit(
    rows: Seq<BoardRow>,
    islands: Seq<Island>,
    missions: Seq<TransportMission>,
    player: PlayerId,
    base_islands: Seq<IslandId>,
    a: Allocation,
    to: IslandId,
    k: int,
)
    requires
        all_fit(rows, islands, missions, player, base_islands, a),
    ensures
        all_fit(rows, islands, missions, player, base_islands, send_empty(a, to, k)),
    decreases k,
{
    if k > 0 && a.empty.len() > 0 && a.infantry.len() > 0 {
        let m = TransportMission {
            transport_entity: a.empty.last(),
            cargo_entity: a.infantry.last(),
            phase: TransportPhase::Pickup,
            target_island: Some(to),
        };
        let b = Allocation {
            empty: a.empty.drop_last(),
            infantry: a.infantry.drop_last(),
            added: a.added.push(m),
            ..a
        };
        assert(may_set_out(rows, missions, player, m.transport_entity, None)) by {
            assert(a.empty[a.empty.len() - 1] == m.transport_entity);
        }
        let i = choose|i: int|
            {
                &&& 0 <= i < rows.len()
                &&& (#[trigger] rows[i]).entity == m.transport_entity
                &&& is_idle_transport(rows[i], missions, player)
                &&& None::<Entity> == (if rows[i].cargo->0.loaded.len() > 0 {
                    Some(rows[i].cargo->0.loaded[0])
                } else {
                    None
                })
            };
        assert(is_free_soldier(rows, islands, missions, player, base_islands, m.cargo_entity)) by {
            assert(a.infantry[a.infantry.len() - 1] == m.cargo_entity);
        }
        assert(rows[i].entity == m.transport_entity);
        assert(is_fit(rows, islands, missions, player, base_islands, m));
        assert(all_fit(rows, islands, missions, player, base_islands, b));
        lemma_empty_fit(rows, islands, missions, player, base_islands, b, to, k - 1);
    }
}

proof fn lemma_allocated_fit(
    rows: Seq<BoardRow>,
    islands: Seq<Island>,
    missions: Seq<TransportMission>,
    player: PlayerId,
    base_islands: Seq<IslandId>,
    targets: Seq<IslandTarget>,
    order: Seq<int>,
    start: Allocation,
    n: int,
)
    requires
        all_fit(rows, islands, missions, player, base_islands, start),
    ensures
        all_fit(
            rows,
            islands,
            missions,
            player,
            base_islands,
            allocated(rows, islands, missions, player, targets, order, start, n).0,
        ),
    decreases n,
{
    if n > 0 {
        lemma_allocated_fit(
            rows,
            islands,
            missions,
            player,
            base_islands,
            targets,
            order,
            start,
            n - 1,
        );
        let a = allocated(rows, islands, missions, player, targets, order, start, n - 1).0;
        let target = targets[order[n - 1]];
        let to = target.objective.target_island;
        let k = still_needed(rows, missions, player, target);
        let sent = if k <= a.loaded.len() {
            k
        } else {
            a.loaded.len() as int
        };
        lemma_loaded_fit(rows, islands, missions, player, base_islands, a, to, k);
        lemma_empty_fit(
            rows,
            islands,
            missions,
            player,
            base_islands,
            send_loaded(a, to, k),
            to,
            k - sent,
        );
    }
}

proof fn lemma_free_fit(
    rows: Seq<BoardRow>,
    islands: Seq<Island>,
    missions: Seq<TransportMission>,
    player: PlayerId,
    base_islands: Seq<IslandId>,
    n: int,
)
    requires
        rows_distinct(rows),
        0 <= n <= rows.len(),
    ensures
        forall|i: int|
            0 <= i < free_loaded(rows, missions, player, n).len() ==> may_set_out(
                rows,
                missions,
                player,
                (#[trigger] free_loaded(rows, missions, player, n)[i]).0,
                Some(free_loaded(rows, missions, player, n)[i].1),
            ),
        forall|i: int|
            0 <= i < free_empty(rows, missions, player, n).len() ==> may_set_out(
                rows,
                missions,
                player,
                #[trigger] free_empty(rows, missions, player, n)[i],
                None,
            ),
        forall|i: int|
            0 <= i < free_infantry(rows, islands, missions, player, base_islands, n).len()
                ==> is_free_soldier(
                rows,
                islands,
                missions,
                player,
                base_islands,
                #[trigger] free_infantry(rows, islands, missions, player, base_islands, n)[i],
            ),
        forall|k: int|
            0 <= k < n && is_idle_transport(#[trigger] rows[k], missions, player) ==> (
            if rows[k].cargo->0.loaded.len() > 0 {
                exists|i: int|
                    0 <= i < free_loaded(rows, missions, player, n).len() && (
                    #[trigger] free_loaded(rows, missions, player, n)[i]).0 == rows[k].entity
            } else {
                free_empty(rows, missions, player, n).contains(rows[k].entity)
            }),
        forall|k: int|
            0 <= k < n && is_idle_infantry(
                rows,
                islands,
                #[trigger] rows[k],
                missions,
                player,
                base_islands,
            ) ==> free_infantry(rows, islands, missions, player, base_islands, n).contains(
                rows[k].entity,
            ),
    decreases n,
{
    if n > 0 {
        lemma_free_fit(rows, islands, missions, player, base_islands, n - 1);
        let last = rows[n - 1];
        let loaded = free_loaded(rows, missions, player, n - 1);
        let empty = free_empty(rows, missions, player, n - 1);
        let infantry = free_infantry(rows, islands, missions, player, base_islands, n - 1);
        let all_loaded = free_loaded(rows, missions, player, n);
        let all_empty = free_empty(rows, missions, player, n);
        let all_infantry = free_infantry(rows, islands, missions, player, base_islands, n);
        lemma_idle_transport(rows, missions, player, n - 1);
        lemma_idle_infantry(rows, islands, missions, player, base_islands, n - 1);
        assert(rows[n - 1].entity == last.entity);
        assert forall|i: int| 0 <= i < all_loaded.len() implies may_set_out(
            rows,
            missions,
            player,
            (#[trigger] all_loaded[i]).0,
            Some(all_loaded[i].1),
        ) by {
            if i < loaded.len() {
                assert(all_loaded[i] == loaded[i]);
            }
        }
        assert forall|i: int| 0 <= i < all_empty.len() implies may_set_out(
            rows,
            missions,
            player,
            #[trigger] all_empty[i],
            None,
        ) by {
            if i < empty.len() {
                assert(all_empty[i] == empty[i]);
            }
        }
        assert forall|i: int| 0 <= i < all_infantry.len() implies is_free_soldier(
            rows,
            islands,
            missions,
            player,
            base_islands,
            #[trigger] all_infantry[i],
        ) by {
            if i < infantry.len() {
                assert(all_infantry[i] == infantry[i]);
            }
        }
        assert forall|k: int|
            0 <= k < n && is_idle_transport(#[trigger] rows[k], missions, player) implies (
        if rows[k].cargo->0.loaded.len() > 0 {
            exists|i: int|
                0 <= i < all_loaded.len() && (#[trigger] all_loaded[i]).0 == rows[k].entity
        } else {
            all_empty.contains(rows[k].entity)
        }) by {
            if k < n - 1 {
                if rows[k].cargo->0.loaded.len() > 0 {
                    let i = choose|i: int|
                        0 <= i < loaded.len() && (#[trigger] loaded[i]).0 == rows[k].entity;
                    assert(all_loaded[i] == loaded[i]);
                } else {
                    let i = choose|i: int| 0 <= i < empty.len() && empty[i] == rows[k].entity;
                    assert(all_empty[i] == empty[i]);
                }
            } else if rows[k].cargo->0.loaded.len() > 0 {
                assert(all_loaded[all_loaded.len() - 1].0 == rows[k].entity);
            } else {
                assert(all_empty[all_empty.len() - 1] == rows[k].entity);
            }
        }
        assert forall|k: int|
            0 <= k < n && is_idle_infantry(
                rows,
                islands,
                #[trigger] rows[k],
                missions,
                player,
                base_islands,
            ) implies all_infantry.contains(rows[k].entity) by {
            if k < n - 1 {
                let i = choose|i: int| 0 <= i < infantry.len() && infantry[i] == rows[k].entity;
                assert(all_infantry[i] == infantry[i]);
            } else {
                assert(all_infantry[all_infantry.len() - 1] == rows[k].entity);
            }
        }
    }
}

/// Every new mission is fit: an idle transport of the player carries what it has aboard, or fetches
/// idle infantry.
pub proof fn law_new_missions_are_fit(
    rows: Seq<BoardRow>,
    islands: Seq<Island>,
    registry: MasterDataRegistry,
    missions: Seq<TransportMission>,
    player: PlayerId,
    base_islands: Seq<IslandId>,
    target_islands: Seq<IslandId>,
    m: int,
)
    requires
        rows_distinct(rows),
        0 <= m < new_missions(
            rows,
            islands,
            registry,
            missions,
            player,
            base_islands,
            target_islands,
        ).len(),
    ensures
        is_fit(
            rows,
            islands,
            missions,
            player,
            base_islands,
            new_missions(
                rows,
                islands,
                registry,
                missions,
                player,
                base_islands,
                target_islands,
            )[m],
        ),
{
    let targets = island_targets(
        rows,
        islands,
        registry,
        player,
        target_islands,
        target_islands.len() as int,
    );
    let start = free_units(rows, islands, missions, player, base_islands);
    lemma_free_fit(rows, islands, missions, player, base_islands, rows.len() as int);
    assert(all_fit(rows, islands, missions, player, base_islands, start));
    lemma_allocated_fit(
        rows,
        islands,
        missions,
        player,
        base_islands,
        targets,
        sort_order(target_keys(targets, base_islands)),
        start,
        targets.len() as int,
    );
}

/// What is no longer left to give out was given out.
spec fn none_lost(start: Allocation, a: Allocation) -> bool {
    &&& a.loaded.len() <= start.loaded.len()
    &&& a.empty.len() <= start.empty.len()
    &&& a.infantry.len() <= start.infantry.len()
    &&& forall|i: int| 0 <= i < a.loaded.len() ==> #[trigger] a.loaded[i] == start.loaded[i]
    &&& forall|i: int| 0 <= i < a.empty.len() ==> #[trigger] a.empty[i] == start.empty[i]
    &&& forall|i: int| 0 <= i < a.infantry.len() ==> #[trigger] a.infantry[i] == start.infantry[i]
    &&& forall|i: int|
        a.loaded.len() <= i < start.loaded.len() ==> has_mission(
            a.added,
            (#[trigger] start.loaded[i]).0,
        )
    &&& forall|i: int|
        a.empty.len() <= i < start.empty.len() ==> has_mission(a.added, #[trigger] start.empty[i])
    &&& forall|i: int|
        a.infantry.len() <= i < start.infantry.len() ==> is_fetched(
            a.added,
            #[trigger] start.infantry[i],
        )
}

/// One of the missions has the transport.
pub open spec fn has_mission(added: Seq<TransportMission>, e: Entity) -> bool {
    exists|m: int| 0 <= m < added.len() && (#[trigger] added[m]).transport_entity == e
}

/// One of the missions fetches the unit.
pub open spec fn is_fetched(added: Seq<TransportMission>, e: Entity) -> bool {
    exists|m: int|
        0 <= m < added.len() && (#[trigger] added[m]).cargo_entity == e && added[m].phase
            == TransportPhase::Pickup
}

proof fn lemma_still_has(added: Seq<TransportMission>, m: TransportMission, e: Entity)
    ensures
        has_mission(added, e) ==> has_mission(added.push(m), e),
        is_fetched(added, e) ==> is_fetched(added.push(m), e),
        m.transport_entity == e ==> has_mission(added.push(m), e),
        m.cargo_entity == e && m.phase == TransportPhase::Pickup ==> is_fetched(added.push(m), e),
{
    let all = added.push(m);
    assert(all[added.len() as int] == m);
    if has_mission(added, e) {
        let k = choose|k: int| 0 <= k < added.len() && (#[trigger] added[k]).transport_entity == e;
        assert(all[k] == added[k]);
    }
    if is_fetched(added, e) {
        let k = choose|k: int|
            0 <= k < added.len() && (#[trigger] added[k]).cargo_entity == e && added[k].phase
                == TransportPhase::Pickup;
        assert(all[k] == added[k]);
    }
}

proof fn lemma_loaded_not_lost(start: Allocation, a: Allocation, to: IslandId, k: int)
    requires
        none_lost(start, a),
    ensures
        none_lost(start, send_loaded(a, to, k)),
    decreases k,
{
    if k > 0 && a.loaded.len() > 0 {
        let (transport_entity, cargo_entity) = a.loaded.last();
        let m = TransportMission {
            transport_entity,
            cargo_entity,
            phase: TransportPhase::Transit,
            target_island: Some(to),
        };
        let b = Allocation { loaded: a.loaded.drop_last(), added: a.added.push(m), ..a };
        assert forall|e: Entity| #![auto]
            (has_mission(a.added, e) ==> has_mission(b.added, e)) && (is_fetched(a.added, e)
                ==> is_fetched(b.added, e)) && (m.transport_entity == e ==> has_mission(
                b.added,
                e,
            )) by {
            lemma_still_has(a.added, m, e);
        }
        assert(a.loaded[a.loaded.len() - 1] == start.loaded[a.loaded.len() - 1]);
        assert(none_lost(start, b));
        lemma_loaded_not_lost(start, b, to, k - 1);
    }
}

proof fn lemma_empty_not_lost(start: Allocation, a: Allocation, to: IslandId, k: int)
    requires
        none_lost(start, a),
    ensures
        none_lost(start, send_empty(a, to, k)),
    decreases k,
{
    if k > 0 && a.empty.len() > 0 && a.infantry.len() > 0 {
        let m = TransportMission {
            transport_entity: a.empty.last(),
            cargo_entity: a.infantry.last(),
            phase: TransportPhase::Pickup,
            target_island: Some(to),
        };
        let b = Allocation {
            empty: a.empty.drop_last(),
            infantry: a.infantry.drop_last(),
            added: a.added.push(m),
            ..a
        };
        assert forall|e: Entity| #![auto]
            (has_mission(a.added, e) ==> has_mission(b.added, e)) && (is_fetched(a.added, e)
                ==> is_fetched(b.added, e)) && (m.transport_entity == e ==> has_mission(
                b.added,
                e,
            )) && (m.cargo_entity == e ==> is_fetched(b.added, e)) by {
            lemma_still_has(a.added, m, e);
        }
        assert(a.empty[a.empty.len() - 1] == start.empty[a.empty.len() - 1]);
        assert(a.infantry[a.infantry.len() - 1] == start.infantry[a.infantry.len() - 1]);
        assert(none_lost(start, b));
        lemma_empty_not_lost(start, b, to, k - 1);
    }
}

proof fn lemma_allocated_not_lost(
    rows: Seq<BoardRow>,
    islands: Seq<Island>,
    missions: Seq<TransportMission>,
    player: PlayerId,
    targets: Seq<IslandTarget>,
    order: Seq<int>,
    start: Allocation,
    n: int,
)
    ensures
        none_lost(
            start,
            allocated(rows, islands, missions, player, targets, order, start, n).0,
        ),
    decreases n,
{
    if n > 0 {
        lemma_allocated_not_lost(rows, islands, missions, player, targets, order, start, n - 1);
        let a = allocated(rows, islands, missions, player, targets, order, start, n - 1).0;
        let target = targets[order[n - 1]];
        let to = target.objective.target_island;
        let k = still_needed(rows, missions, player, target);
        let sent = if k <= a.loaded.len() {
            k
        } else {
            a.loaded.len() as int
        };
        lemma_loaded_not_lost(start, a, to, k);
        lemma_empty_not_lost(start, send_loaded(a, to, k), to, k - sent);
    }
}

/// Nobody idles while a unit is lacking. If an island that may be invaded still lacks units, then
/// every idle transport with a unit aboard has a new mission, and so has every idle empty one, or
/// else all idle infantry is being fetched.
pub proof fn law_nobody_idles_while_units_are_lacking(
    rows: Seq<BoardRow>,
    islands: Seq<Island>,
    registry: MasterDataRegistry,
    missions: Seq<TransportMission>,
    player: PlayerId,
    base_islands: Seq<IslandId>,
    target_islands: Seq<IslandId>,
    t: int,
)
    requires
        rows_distinct(rows),
        target_islands.no_duplicates(),
        ({
            let targets = island_targets(
                rows,
                islands,
                registry,
                player,
                target_islands,
                target_islands.len() as int,
            );
            let added = new_missions(
                rows,
                islands,
                registry,
                missions,
                player,
                base_islands,
                target_islands,
            );
            &&& 0 <= t < targets.len()
            &&& !is_forbidden(rows, islands, player, targets[t])
            &&& missions_to(
                rows,
                missions,
                player,
                targets[t].objective.target_island,
                missions.len() as int,
            ) + added_to(added, targets[t].objective.target_island, added.len() as int)
                < targets[t].objective.needed_infantry.0
        }),
    ensures
        ({
            let added = new_missions(
                rows,
                islands,
                registry,
                missions,
                player,
                base_islands,
                target_islands,
            );
            &&& forall|k: int|
                0 <= k < rows.len() && is_idle_transport(#[trigger] rows[k], missions, player)
                    && rows[k].cargo->0.loaded.len() > 0 ==> has_mission(added, rows[k].entity)
            &&& {
                ||| forall|k: int|
                    0 <= k < rows.len() && is_idle_transport(#[trigger] rows[k], missions, player)
                        ==> has_mission(added, rows[k].entity)
                ||| forall|k: int|
                    0 <= k < rows.len() && is_idle_infantry(
                        rows,
                        islands,
                        #[trigger] rows[k],
                        missions,
                        player,
                        base_islands,
                    ) ==> is_fetched(added, rows[k].entity)
            }
        }),
{
    let targets = island_targets(
        rows,
        islands,
        registry,
        player,
        target_islands,
        target_islands.len() as int,
    );
    let order = sort_order(target_keys(targets, base_islands));
    let start = free_units(rows, islands, missions, player, base_islands);
    lemma_order_of_targets(targets, base_islands);
    lemma_targets_apart(
        rows,
        islands,
        registry,
        player,
        target_islands,
        target_islands.len() as int,
    );
    assert(order.contains(t));
    let a = choose|i: int| 0 <= i < order.len() && order[i] == t;
    lemma_served_in_turn(
        rows,
        islands,
        missions,
        player,
        targets,
        order,
        start,
        a,
        a,
        targets.len() as int,
    );
    lemma_allocated_not_lost(
        rows,
        islands,
        missions,
        player,
        targets,
        order,
        start,
        targets.len() as int,
    );
    lemma_free_fit(rows, islands, missions, player, base_islands, rows.len() as int);
    let left = allocated(
        rows,
        islands,
        missions,
        player,
        targets,
        order,
        start,
        targets.len() as int,
    ).0;
    assert(is_exhausted(left));
    assert forall|k: int|
        0 <= k < rows.len() && is_idle_transport(#[trigger] rows[k], missions, player)
            && rows[k].cargo->0.loaded.len() > 0 implies has_mission(left.added, rows[k].entity) by {
        let i = choose|i: int|
            0 <= i < start.loaded.len() && (#[trigger] start.loaded[i]).0 == rows[k].entity;
        assert(has_mission(left.added, start.loaded[i].0));
    }
    if left.empty.len() == 0 {
        assert forall|k: int|
            0 <= k < rows.len() && is_idle_transport(
                #[trigger] rows[k],
                missions,
                player,
            ) implies has_mission(left.added, rows[k].entity) by {
            if rows[k].cargo->0.loaded.len() == 0 {
                let i = choose|i: int| 0 <= i < start.empty.len() && start.empty[i]
                    == rows[k].entity;
                assert(has_mission(left.added, start.empty[i]));
            }
        }
    } else {
        assert forall|k: int|
            0 <= k < rows.len() && is_idle_infantry(
                rows,
                islands,
                #[trigger] rows[k],
                missions,
                player,
                base_islands,
            ) implies is_fetched(left.added, rows[k].entity) by {
            let i = choose|i: int|
                0 <= i < start.infantry.len() && start.infantry[i] == rows[k].entity;
            assert(is_fetched(left.added, start.infantry[i]));
        }
    }
}

} // verus!
