//! Who stands in the way: what the movement rules are told about other units.
use crate::board::{Board, BoardRow};
use crate::grid::GridPosition;
use crate::units::{PlayerId, UnitType};
use vstd::prelude::*;

verus! {

/// What stands on a tile.
#[derive(Clone, Debug)]
pub struct Occupant {
    pub position: GridPosition,
    pub player_id: PlayerId,
    pub is_transport: bool,
    pub unit_type: UnitType,
    pub loadable_types: Vec<UnitType>,
    pub free_slots: u32,
}

/// The row is a unit on the board: it has an owner, a position and stats. Where `outside` is set,
/// units inside a transport do not count.
pub open spec fn occupies(row: BoardRow, outside: bool) -> bool {
    row.faction is Some && row.position is Some && row.stats is Some && (outside ==> row.transporting
        is None)
}

/// The units on the board among the first `n` rows.
pub open spec fn occupying(rows: Seq<BoardRow>, outside: bool, n: int) -> Seq<BoardRow>
    decreases n,
{
    if n <= 0 {
        Seq::empty()
    } else if occupies(rows[n - 1], outside) {
        occupying(rows, outside, n - 1).push(rows[n - 1])
    } else {
        occupying(rows, outside, n - 1)
    }
}

/// The free room of a transport: what its hold has left, or, where `outside` is not set, all the
/// room that its type has.
pub open spec fn free_room(row: BoardRow, outside: bool) -> u32 {
    if outside {
        match row.cargo {
            Some(c) => c.max.saturating_sub(c.loaded.len() as u32),
            None => 0,
        }
    } else {
        match row.stats {
            Some(stats) => stats.max_cargo,
            None => 0,
        }
    }
}

/// The occupant says of the unit what the movement rules ask.
pub open spec fn tells_of(o: Occupant, row: BoardRow, outside: bool) -> bool {
    match (row.faction, row.position, row.stats) {
        (Some(player_id), Some(position), Some(stats)) => {
            &&& o.position == position
            &&& o.player_id == player_id
            &&& o.is_transport == (stats.max_cargo > 0)
            &&& o.unit_type == stats.unit_type
            &&& o.loadable_types@ == stats.loadable_unit_types@
            &&& o.free_slots == free_room(row, outside)
        },
        _ => false,
    }
}

/// The list tells of exactly the units on the board, in the order of the board.
pub open spec fn tells_of_all(list: Seq<Occupant>, units: Seq<BoardRow>, outside: bool) -> bool {
    list.len() == units.len() && forall|i: int|
        0 <= i < list.len() ==> tells_of(#[trigger] list[i], units[i], outside)
}

/// The units that stand in the way of a mission.
pub fn mission_occupants(board: &Board) -> (r: Vec<Occupant>)
    ensures
        tells_of_all(r@, occupying(board.rows@, true, board.rows.len() as int), true),
{
    collect_occupants(board, true)
}

/// The units that stand in the way when a plan is looked at one turn ahead.
pub fn simulation_occupants(board: &Board) -> (r: Vec<Occupant>)
    ensures
        tells_of_all(r@, occupying(board.rows@, false, board.rows.len() as int), false),
{
    collect_occupants(board, false)
}

fn collect_occupants(board: &Board, outside: bool) -> (r: Vec<Occupant>)
    ensures
        tells_of_all(r@, occupying(board.rows@, outside, board.rows.len() as int), outside),
{
    let mut r: Vec<Occupant> = Vec::new();
    let mut n: usize = 0;
    while n < board.rows.len()
        invariant
            n <= board.rows.len(),
            tells_of_all(r@, occupying(board.rows@, outside, n as int), outside),
        decreases board.rows.len() - n,
    {
        let row = &board.rows[n];
        if !outside || row.transporting.is_none() {
            if let Some(player_id) = row.faction {
                if let Some(position) = row.position {
                    if let Some(stats) = &row.stats {
                        let free_slots: u32 = if outside {
                            match &row.cargo {
                                Some(c) => c.max.saturating_sub(c.loaded.len() as u32),
                                None => 0,
                            }
                        } else {
                            stats.max_cargo
                        };
                        let loadable_types = stats.loadable_unit_types.clone();
                        assert(loadable_types@ =~= stats.loadable_unit_types@);
                        r.push(
                            Occupant {
                                position,
                                player_id,
                                is_transport: stats.max_cargo > 0,
                                unit_type: stats.unit_type,
                                loadable_types,
                                free_slots,
                            },
                        );
                    }
                }
            }
        }
        n += 1;
    }
    r
}

} // verus!
