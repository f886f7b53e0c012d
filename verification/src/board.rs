//! The board: what the game world holds of each entity.
use crate::entity::Entity;
use crate::grid::{GridPosition, Terrain};
use crate::units::{Ammo, Fuel, Health, PlayerId, UnitStats};
use vstd::prelude::*;

verus! {

/// A capturable building.
#[derive(Clone, Copy, Debug, PartialEq, Eq, Structural)]
pub struct Property {
    pub terrain: Terrain,
    pub owner_id: Option<PlayerId>,
    pub capture_points: u32,
    pub max_capture_points: u32,
}

impl Property {
    /// A building with all its capture points.
    pub fn new(terrain: Terrain, owner_id: Option<PlayerId>, max_capture_points: u32) -> (r: Property)
        ensures
            r == (Property {
                terrain,
                owner_id,
                capture_points: max_capture_points,
                max_capture_points,
            }),
    {
        Property { terrain, owner_id, capture_points: max_capture_points, max_capture_points }
    }
}

/// The room of a transport and what is in it.
#[derive(Clone, Debug)]
pub struct CargoCapacity {
    pub max: u32,
    pub loaded: Vec<Entity>,
}

/// The components of one entity.
#[derive(Clone, Debug)]
pub struct BoardRow {
    pub entity: Entity,
    pub faction: Option<PlayerId>,
    pub position: Option<GridPosition>,
    pub health: Option<Health>,
    pub ammo: Option<Ammo>,
    pub fuel: Option<Fuel>,
    pub stats: Option<UnitStats>,
    pub property: Option<Property>,
    /// What the unit carries.
    pub cargo: Option<CargoCapacity>,
    /// What carries the unit.
    pub transporting: Option<Entity>,
    /// Whether the unit has acted this turn.
    pub action_completed: Option<bool>,
}

impl BoardRow {
    /// An entity without components.
    pub fn new(entity: Entity) -> (r: BoardRow)
        ensures
            r.entity == entity,
            r.faction is None,
            r.position is None,
            r.health is None,
            r.ammo is None,
            r.fuel is None,
            r.stats is None,
            r.property is None,
            r.cargo is None,
            r.transporting is None,
            r.action_completed is None,
    {
        BoardRow {
            entity,
            faction: None,
            position: None,
            health: None,
            ammo: None,
            fuel: None,
            stats: None,
            property: None,
            cargo: None,
            transporting: None,
            action_completed: None,
        }
    }
}

/// All entities of the world.
#[derive(Clone, Debug)]
pub struct Board {
    pub rows: Vec<BoardRow>,
}

/// The first row from index `i` on that belongs to the entity.
pub open spec fn row_of(rows: Seq<BoardRow>, e: Entity, i: int) -> Option<int>
    decreases rows.len() - i,
{
    if i >= rows.len() {
        None
    } else if rows[i].entity == e {
        Some(i)
    } else {
        row_of(rows, e, i + 1)
    }
}

/// No entity has two rows.
pub open spec fn rows_distinct(rows: Seq<BoardRow>) -> bool {
    forall|i: int, j: int|
        0 <= i < j < rows.len() ==> (#[trigger] rows[i]).entity != (#[trigger] rows[j]).entity
}

pub proof fn lemma_row_of(rows: Seq<BoardRow>, e: Entity, i: int)
    requires
        0 <= i <= rows.len(),
    ensures
        row_of(rows, e, i) matches Some(k) ==> i <= k < rows.len() && rows[k].entity == e && (
        forall|j: int| i <= j < k ==> (#[trigger] rows[j]).entity != e),
        row_of(rows, e, i) is None ==> forall|j: int|
            i <= j < rows.len() ==> (#[trigger] rows[j]).entity != e,
    decreases rows.len() - i,
{
    if i < rows.len() && rows[i].entity != e {
        lemma_row_of(rows, e, i + 1);
    }
}

impl Board {
    /// The index of the entity's row.
    pub fn find(&self, e: Entity) -> (r: Option<usize>)
        ensures
            r is Some <==> row_of(self.rows@, e, 0) is Some,
            r matches Some(i) ==> row_of(self.rows@, e, 0) == Some(i as int) && i < self.rows.len(),
    {
        let mut i: usize = 0;
        while i < self.rows.len()
            invariant
                i <= self.rows.len(),
                row_of(self.rows@, e, 0) == row_of(self.rows@, e, i as int),
            decreases self.rows.len() - i,
        {
            if self.rows[i].entity == e {
                return Some(i);
            }
            i += 1;
        }
        None
    }
}

} // verus!
