//! What a player sees of the board before building: units, sites and income.
use crate::board::{Board, BoardRow};
use crate::damage::DamageChart;
use crate::grid::{contains_position, GridPosition, Terrain};
use crate::master_data::MasterDataRegistry;
use crate::occupants::{occupies, occupying, Occupant};
use crate::units::{MovementType, PlayerId, UnitStats, UnitType};
use vstd::prelude::*;

verus! {

/// Which units to list.
#[derive(Clone, Copy, Debug, PartialEq, Eq, Structural)]
pub enum UnitSide {
    Own,
    Enemy,
    /// Own transports with nothing in them.
    EmptyTransport,
}

/// The unit is one of those to list. Units inside a transport are not.
pub open spec fn on_side(row: BoardRow, player: PlayerId, side: UnitSide) -> bool {
    &&& occupies(row, true)
    &&& match side {
        UnitSide::Own => row.faction == Some(player),
        UnitSide::Enemy => row.faction != Some(player),
        UnitSide::EmptyTransport => {
            &&& row.faction == Some(player)
            &&& match row.cargo {
                Some(cargo) => cargo.loaded.len() == 0,
                None => false,
            }
            &&& match row.stats {
                Some(stats) => stats.max_cargo > 0,
                None => false,
            }
        },
    }
}

/// The units to list among the first `n` rows.
pub open spec fn side_rows(
    rows: Seq<BoardRow>,
    player: PlayerId,
    side: UnitSide,
    n: int,
) -> Seq<BoardRow>
    decreases n,
{
    if n <= 0 {
        Seq::empty()
    } else if on_side(rows[n - 1], player, side) {
        side_rows(rows, player, side, n - 1).push(rows[n - 1])
    } else {
        side_rows(rows, player, side, n - 1)
    }
}

/// The listed unit is the one in the row.
pub open spec fn unit_is(unit: (GridPosition, UnitStats), row: BoardRow) -> bool {
    match (row.position, row.stats) {
        (Some(position), Some(stats)) => unit.0 == position && unit.1.same_as(stats),
        _ => false,
    }
}

/// The list holds the units in the rows.
pub open spec fn units_are(units: Seq<(GridPosition, UnitStats)>, rows: Seq<BoardRow>) -> bool {
    units.len() == rows.len() && forall|i: int|
        0 <= i < units.len() ==> unit_is(#[trigger] units[i], rows[i])
}

fn stands_on(row: &BoardRow, player: PlayerId, side: UnitSide) -> (r: bool)
    ensures
        r == on_side(*row, player, side),
{
    if row.transporting.is_some() || row.position.is_none() {
        return false;
    }
    match (&row.faction, &row.stats) {
        (Some(faction), Some(stats)) => match side {
            UnitSide::Own => *faction == player,
            UnitSide::Enemy => *faction != player,
            UnitSide::EmptyTransport => *faction == player && stats.max_cargo > 0 && match &row.cargo {
                Some(cargo) => cargo.loaded.len() == 0,
                None => false,
            },
        },
        _ => false,
    }
}

/// Lists the player's own units, those of all others, or the player's empty transports.
pub fn collect_side(board: &Board, player: PlayerId, side: UnitSide) -> (r: Vec<
    (GridPosition, UnitStats),
>)
    ensures
        units_are(r@, side_rows(board.rows@, player, side, board.rows.len() as int)),
{
    let mut r: Vec<(GridPosition, UnitStats)> = Vec::new();
    let mut n: usize = 0;
    while n < board.rows.len()
        invariant
            n <= board.rows.len(),
            units_are(r@, side_rows(board.rows@, player, side, n as int)),
        decreases board.rows.len() - n,
    {
        let row = &board.rows[n];
        if stands_on(row, player, side) {
            if let (Some(position), Some(stats)) = (&row.position, &row.stats) {
                r.push((*position, stats.duplicate()));
            }
        }
        n += 1;
    }
    r
}

/// The positions of the units in the rows.
pub open spec fn row_positions(rows: Seq<BoardRow>) -> Seq<GridPosition> {
    Seq::new(
        rows.len(),
        |i: int|
            match rows[i].position {
                Some(p) => p,
                None => GridPosition { x: 0, y: 0 },
            },
    )
}

/// Where units stand, of whatever side.
pub fn collect_occupied(board: &Board) -> (r: Vec<GridPosition>)
    ensures
        r@ == row_positions(occupying(board.rows@, true, board.rows.len() as int)),
{
    let mut r: Vec<GridPosition> = Vec::new();
    let mut n: usize = 0;
    assert(r@ =~= row_positions(occupying(board.rows@, true, 0)));
    while n < board.rows.len()
        invariant
            n <= board.rows.len(),
            r@ == row_positions(occupying(board.rows@, true, n as int)),
        decreases board.rows.len() - n,
    {
        let row = &board.rows[n];
        let ghost before = occupying(board.rows@, true, n as int);
        if row.transporting.is_none() && row.faction.is_some() && row.stats.is_some() {
            if let Some(position) = row.position {
                r.push(position);
                assert(r@ =~= row_positions(before.push(*row)));
            }
        }
        n += 1;
    }
    r
}

/// The free room of a transport: what its type has, less what is in it.
pub open spec fn room_left(row: BoardRow, stats: UnitStats) -> u32 {
    match row.cargo {
        Some(cargo) => stats.max_cargo.saturating_sub(cargo.loaded.len() as u32),
        None => stats.max_cargo,
    }
}

/// The occupant says of the unit what the movement rules ask.
pub open spec fn describes_unit(o: Occupant, row: BoardRow) -> bool {
    match (row.faction, row.position, row.stats) {
        (Some(player_id), Some(position), Some(stats)) => {
            &&& o.position == position
            &&& o.player_id == player_id
            &&& o.is_transport == (stats.max_cargo > 0)
            &&& o.unit_type == stats.unit_type
            &&& o.loadable_types@ == stats.loadable_unit_types@
            &&& o.free_slots == room_left(row, stats)
        },
        _ => false,
    }
}

/// The units that a new unit would find in its way, in the order of the board.
pub fn production_occupants(board: &Board) -> (r: Vec<Occupant>)
    ensures
        ({
            let units = occupying(board.rows@, true, board.rows.len() as int);
            r.len() == units.len() && forall|i: int|
                0 <= i < r.len() ==> describes_unit(#[trigger] r@[i], units[i])
        }),
{
    let mut r: Vec<Occupant> = Vec::new();
    let mut n: usize = 0;
    while n < board.rows.len()
        invariant
            n <= board.rows.len(),
            r.len() == occupying(board.rows@, true, n as int).len(),
            forall|i: int|
                0 <= i < r.len() ==> describes_unit(
                    #[trigger] r@[i],
                    occupying(board.rows@, true, n as int)[i],
                ),
        decreases board.rows.len() - n,
    {
        let row = &board.rows[n];
        if row.transporting.is_none() {
            if let (Some(player_id), Some(position), Some(stats)) = (
                &row.faction,
                &row.position,
                &row.stats,
            ) {
                let free_slots: u32 = match &row.cargo {
                    Some(cargo) => stats.max_cargo.saturating_sub(cargo.loaded.len() as u32),
                    None => stats.max_cargo,
                };
                let loadable_types = stats.loadable_unit_types.clone();
                assert(loadable_types@ =~= stats.loadable_unit_types@);
                r.push(
                    Occupant {
                        position: *position,
                        player_id: *player_id,
                        is_transport: stats.max_cargo > 0,
                        unit_type: stats.unit_type,
                        loadable_types,
                        free_slots,
                    },
                );
            }
        }
        n += 1;
    }
    r
}

/// A unit as the fighting strength is reckoned.
#[derive(Clone, Copy, Debug, PartialEq, Eq, Structural)]
pub struct CombatCapabilitySnapshot {
    pub faction: PlayerId,
    pub position: GridPosition,
    pub unit_type: UnitType,
    pub movement_type: MovementType,
    pub hp: u32,
    pub cost: u32,
    pub max_movement: u32,
    pub min_range: u32,
    pub max_range: u32,
    pub ammo1: u32,
    pub max_ammo1: u32,
    pub ammo2: u32,
    pub max_ammo2: u32,
    pub fuel: u32,
    /// One where the unit cannot act this turn any more.
    pub action_delay: u32,
}

/// The unit as its fighting strength is reckoned: unhurt, loaded and fuelled where nothing else is
/// known, and done for the turn unless it is known to be ready.
pub open spec fn capability(
    row: BoardRow,
    faction: PlayerId,
    position: GridPosition,
    stats: UnitStats,
) -> CombatCapabilitySnapshot {
    CombatCapabilitySnapshot {
        faction,
        position,
        unit_type: stats.unit_type,
        movement_type: stats.movement_type,
        hp: match row.health {
            Some(h) => h.current,
            None => 100,
        },
        cost: stats.cost,
        max_movement: stats.max_movement,
        min_range: stats.min_range,
        max_range: stats.max_range,
        ammo1: match row.ammo {
            Some(a) => a.ammo1,
            None => stats.max_ammo1,
        },
        max_ammo1: stats.max_ammo1,
        ammo2: match row.ammo {
            Some(a) => a.ammo2,
            None => stats.max_ammo2,
        },
        max_ammo2: stats.max_ammo2,
        fuel: match row.fuel {
            Some(f) => f.current,
            None => stats.max_fuel,
        },
        action_delay: if row.action_completed == Some(false) {
            0
        } else {
            1
        },
    }
}

/// The player's units among the first `n` rows, as their fighting strength is reckoned.
pub open spec fn capabilities(rows: Seq<BoardRow>, player: PlayerId, n: int) -> Seq<
    CombatCapabilitySnapshot,
>
    decreases n,
{
    if n <= 0 {
        Seq::empty()
    } else {
        let rest = capabilities(rows, player, n - 1);
        let row = rows[n - 1];
        match (row.position, row.stats) {
            (Some(position), Some(stats)) => if on_side(row, player, UnitSide::Own) {
                rest.push(capability(row, player, position, stats))
            } else {
                rest
            },
            _ => rest,
        }
    }
}

/// The player's units as their fighting strength is reckoned.
pub fn collect_capabilities(board: &Board, player: PlayerId) -> (r: Vec<CombatCapabilitySnapshot>)
    ensures
        r@ == capabilities(board.rows@, player, board.rows.len() as int),
{
    let mut r: Vec<CombatCapabilitySnapshot> = Vec::new();
    let mut n: usize = 0;
    while n < board.rows.len()
        invariant
            n <= board.rows.len(),
            r@ == capabilities(board.rows@, player, n as int),
        decreases board.rows.len() - n,
    {
        let row = &board.rows[n];
        if stands_on(row, player, UnitSide::Own) {
            if let (Some(position), Some(stats)) = (&row.position, &row.stats) {
                let hp: u32 = match row.health {
                    Some(h) => h.current,
                    None => 100,
                };
                let (ammo1, ammo2): (u32, u32) = match row.ammo {
                    Some(a) => (a.ammo1, a.ammo2),
                    None => (stats.max_ammo1, stats.max_ammo2),
                };
                let fuel: u32 = match row.fuel {
                    Some(f) => f.current,
                    None => stats.max_fuel,
                };
                let action_delay: u32 = match row.action_completed {
                    Some(false) => 0,
                    _ => 1,
                };
                r.push(
                    CombatCapabilitySnapshot {
                        faction: player,
                        position: *position,
                        unit_type: stats.unit_type,
                        movement_type: stats.movement_type,
                        hp,
                        cost: stats.cost,
                        max_movement: stats.max_movement,
                        min_range: stats.min_range,
                        max_range: stats.max_range,
                        ammo1,
                        max_ammo1: stats.max_ammo1,
                        ammo2,
                        max_ammo2: stats.max_ammo2,
                        fuel,
                        action_delay,
                    },
                );
            }
        }
        n += 1;
    }
    r
}

/// The terrain of a building that the player owns, and where it stands.
pub open spec fn owned_site(row: BoardRow, player: PlayerId) -> Option<(GridPosition, Terrain)> {
    match (row.position, row.property) {
        (Some(position), Some(property)) => if property.owner_id == Some(player) {
            Some((position, property.terrain))
        } else {
            None
        },
        _ => None,
    }
}

fn find_owned_site(row: &BoardRow, player: PlayerId) -> (r: Option<(GridPosition, Terrain)>)
    ensures
        r == owned_site(*row, player),
{
    match (row.position, row.property) {
        (Some(position), Some(property)) => match property.owner_id {
            Some(owner) => if owner == player {
                Some((position, property.terrain))
            } else {
                None
            },
            None => None,
        },
        _ => None,
    }
}

/// The player's first capital from row `i` on.
pub open spec fn capital_from(rows: Seq<BoardRow>, player: PlayerId, i: int) -> Option<GridPosition>
    decreases rows.len() - i,
{
    if i >= rows.len() {
        None
    } else {
        match owned_site(rows[i], player) {
            Some((position, Terrain::Capital)) => Some(position),
            _ => capital_from(rows, player, i + 1),
        }
    }
}

/// The player's first capital.
pub fn find_capital(board: &Board, player: PlayerId) -> (r: Option<GridPosition>)
    ensures
        r == capital_from(board.rows@, player, 0),
{
    let mut i: usize = 0;
    while i < board.rows.len()
        invariant
            i <= board.rows.len(),
            capital_from(board.rows@, player, 0) == capital_from(board.rows@, player, i as int),
        decreases board.rows.len() - i,
    {
        if let Some((position, terrain)) = find_owned_site(&board.rows[i], player) {
            if terrain == Terrain::Capital {
                return Some(position);
            }
        }
        i += 1;
    }
    None
}

/// What the player's buildings among the first `n` rows earn each turn.
pub open spec fn income_of(
    rows: Seq<BoardRow>,
    registry: MasterDataRegistry,
    player: PlayerId,
    n: int,
) -> u32
    decreases n,
{
    if n <= 0 {
        0
    } else {
        let rest = income_of(rows, registry, player, n - 1);
        match owned_site(rows[n - 1], player) {
            Some((_, terrain)) => rest.saturating_add(registry.income(terrain)),
            None => rest,
        }
    }
}

/// How many airports near the capital the player owns among the first `n` rows.
pub open spec fn airports_of(
    rows: Seq<BoardRow>,
    player: PlayerId,
    in_range: Seq<GridPosition>,
    n: int,
) -> u32
    decreases n,
{
    if n <= 0 {
        0
    } else {
        let rest = airports_of(rows, player, in_range, n - 1);
        match owned_site(rows[n - 1], player) {
            Some((position, Terrain::Airport)) => if in_range.contains(position) {
                rest.saturating_add(1)
            } else {
                rest
            },
            _ => rest,
        }
    }
}

/// The player's facilities near the capital among the first `n` rows on which nothing stands.
pub open spec fn facilities_of(
    rows: Seq<BoardRow>,
    registry: MasterDataRegistry,
    player: PlayerId,
    occupied: Seq<GridPosition>,
    in_range: Seq<GridPosition>,
    n: int,
) -> Seq<(GridPosition, Terrain)>
    decreases n,
{
    if n <= 0 {
        Seq::empty()
    } else {
        let rest = facilities_of(rows, registry, player, occupied, in_range, n - 1);
        match owned_site(rows[n - 1], player) {
            Some((position, terrain)) => if registry.builds(terrain) && !occupied.contains(position)
                && in_range.contains(position) {
                rest.push((position, terrain))
            } else {
                rest
            },
            None => rest,
        }
    }
}

/// What the player's buildings give.
#[derive(Clone, Debug)]
pub struct SiteSurvey {
    /// Free facilities near the capital.
    pub facilities: Vec<(GridPosition, Terrain)>,
    pub income_per_turn: u32,
    pub owned_airport_count: u32,
}

/// Surveys the player's buildings. `in_range` holds the positions near enough to the capital to
/// build there.
pub fn survey_sites(
    board: &Board,
    registry: &MasterDataRegistry,
    player: PlayerId,
    occupied: &Vec<GridPosition>,
    in_range: &Vec<GridPosition>,
) -> (r: SiteSurvey)
    ensures
        r.facilities@ == facilities_of(
            board.rows@,
            *registry,
            player,
            occupied@,
            in_range@,
            board.rows.len() as int,
        ),
        r.income_per_turn == income_of(board.rows@, *registry, player, board.rows.len() as int),
        r.owned_airport_count == airports_of(
            board.rows@,
            player,
            in_range@,
            board.rows.len() as int,
        ),
{
    let mut r = SiteSurvey {
        facilities: Vec::new(),
        income_per_turn: 0,
        owned_airport_count: 0,
    };
    let mut n: usize = 0;
    while n < board.rows.len()
        invariant
            n <= board.rows.len(),
            r.facilities@ == facilities_of(
                board.rows@,
                *registry,
                player,
                occupied@,
                in_range@,
                n as int,
            ),
            r.income_per_turn == income_of(board.rows@, *registry, player, n as int),
            r.owned_airport_count == airports_of(board.rows@, player, in_range@, n as int),
        decreases board.rows.len() - n,
    {
        if let Some((position, terrain)) = find_owned_site(&board.rows[n], player) {
            let near: bool = contains_position(in_range, position);
            r.income_per_turn =
            r.income_per_turn.saturating_add(registry.landscape_income(terrain));
            if terrain == Terrain::Airport && near {
                r.owned_airport_count = r.owned_airport_count.saturating_add(1);
            }
            if registry.is_production_facility(terrain) && !contains_position(occupied, position)
                && near {
                r.facilities.push((position, terrain));
            }
        }
        n += 1;
    }
    r
}

/// Every facility that the survey offers belongs to the player, builds, is near the capital, and
/// has nothing on it.
pub proof fn law_offered_facilities_are_free(
    rows: Seq<BoardRow>,
    registry: MasterDataRegistry,
    player: PlayerId,
    occupied: Seq<GridPosition>,
    in_range: Seq<GridPosition>,
    n: int,
)
    requires
        0 <= n <= rows.len(),
    ensures
        forall|i: int|
            0 <= i < facilities_of(rows, registry, player, occupied, in_range, n).len() ==> {
                let site = #[trigger] facilities_of(
                    rows,
                    registry,
                    player,
                    occupied,
                    in_range,
                    n,
                )[i];
                &&& !occupied.contains(site.0)
                &&& in_range.contains(site.0)
                &&& registry.builds(site.1)
                &&& exists|k: int|
                    0 <= k < n && owned_site(#[trigger] rows[k], player) == Some(site)
            },
    decreases n,
{
    if n > 0 {
        law_offered_facilities_are_free(rows, registry, player, occupied, in_range, n - 1);
        let rest = facilities_of(rows, registry, player, occupied, in_range, n - 1);
        let all = facilities_of(rows, registry, player, occupied, in_range, n);
        assert forall|i: int| 0 <= i < all.len() implies {
            let site = #[trigger] all[i];
            &&& !occupied.contains(site.0)
            &&& in_range.contains(site.0)
            &&& registry.builds(site.1)
            &&& exists|k: int| 0 <= k < n && owned_site(#[trigger] rows[k], player) == Some(site)
        } by {
            if i < rest.len() {
                assert(all[i] == rest[i]);
            } else {
                assert(owned_site(rows[n - 1], player) == Some(all[i]));
            }
        }
    }
}

/// Those of the first `n` units that harm one of the targets.
pub open spec fn capable_among(
    chart: DamageChart,
    units: Seq<CombatCapabilitySnapshot>,
    targets: Seq<UnitType>,
    n: int,
) -> Seq<CombatCapabilitySnapshot>
    decreases n,
{
    if n <= 0 {
        Seq::empty()
    } else {
        let rest = capable_among(chart, units, targets, n - 1);
        if chart.harms(units[n - 1].unit_type, targets) {
            rest.push(units[n - 1])
        } else {
            rest
        }
    }
}

/// The units that harm one of the targets, in their order.
pub fn capable_units(
    chart: &DamageChart,
    units: &Vec<CombatCapabilitySnapshot>,
    targets: &Vec<UnitType>,
) -> (r: Vec<CombatCapabilitySnapshot>)
    ensures
        r@ == capable_among(*chart, units@, targets@, units.len() as int),
{
    let mut r: Vec<CombatCapabilitySnapshot> = Vec::new();
    let mut n: usize = 0;
    while n < units.len()
        invariant
            n <= units.len(),
            r@ == capable_among(*chart, units@, targets@, n as int),
        decreases units.len() - n,
    {
        if chart.harms_some(units[n].unit_type, targets) {
            r.push(units[n]);
        }
        n += 1;
    }
    r
}

} // verus!
