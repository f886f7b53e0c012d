//! Squads and what they are doing.
use crate::entity::{push_entities, Entity};
use crate::grid::GridPosition;
use crate::islands::IslandId;
use crate::missions::TransportPhase;
use crate::order::{key_views, sort_order, stable_order};
use crate::units::PlayerId;
use vstd::prelude::*;

verus! {

#[derive(Clone, Copy, Debug, PartialEq, Eq, Hash, Structural)]
pub struct SquadId(pub u32);

#[derive(Clone, Copy, Debug, PartialEq, Eq, Hash, Structural)]
pub enum MissionType {
    Transport,
    Capture,
    Defense,
    Attack,
    Interception,
}

#[derive(Clone, Copy, Debug, PartialEq, Eq, Hash, Structural)]
pub enum MissionPhase {
    Forming,
    MovingToTarget,
    Executing,
    Completed,
    Transport(TransportPhase),
}

/// A group of units with one mission.
#[derive(Clone, Debug)]
pub struct Squad {
    pub id: SquadId,
    pub owner_id: Option<PlayerId>,
    pub mission_type: MissionType,
    pub phase: MissionPhase,
    pub target: Option<GridPosition>,
    pub target_island: Option<IslandId>,
    pub transport_entity: Option<Entity>,
    pub transport_cargo: Option<Entity>,
    pub members: Vec<Entity>,
    pub cargo_entities: Vec<Entity>,
    pub delivered_cargo: Vec<Entity>,
    pub pickup_position: Option<GridPosition>,
    pub drop_position: Option<GridPosition>,
}

/// All squads, and the units that act on their own for now.
#[derive(Clone, Debug)]
pub struct SquadManager {
    pub squads: Vec<Squad>,
    pub solo_fallbacks: Vec<Entity>,
}

/// Every unit that the squad names: its transport, its members, its cargo and what it landed.
pub open spec fn squad_entities(squad: Squad) -> Seq<Entity> {
    let transport = match squad.transport_entity {
        Some(e) => seq![e],
        None => Seq::empty(),
    };
    transport + squad.members@ + squad.cargo_entities@ + squad.delivered_cargo@
}

/// Every unit that the squad names.
pub fn all_squad_entities(squad: &Squad) -> (r: Vec<Entity>)
    ensures
        r@ == squad_entities(*squad),
{
    let mut r: Vec<Entity> = Vec::new();
    if let Some(e) = squad.transport_entity {
        r.push(e);
    }
    push_entities(&mut r, &squad.members);
    push_entities(&mut r, &squad.cargo_entities);
    push_entities(&mut r, &squad.delivered_cargo);
    assert(r@ =~= squad_entities(*squad));
    r
}

/// The indices of the squads in the order of their numbers.
pub open spec fn squad_order(squads: Seq<Squad>) -> Seq<int> {
    sort_order(squad_keys(squads))
}

/// The numbers of the squads.
pub open spec fn squad_keys(squads: Seq<Squad>) -> Seq<Seq<u64>> {
    Seq::new(squads.len(), |i: int| seq![squads[i].id.0 as u64])
}

/// The indices of the squads in the order of their numbers.
pub fn sort_squads(squads: &Vec<Squad>) -> (r: Vec<usize>)
    ensures
        r.len() == squads.len(),
        forall|i: int| 0 <= i < r.len() ==> #[trigger] r[i] == squad_order(squads@)[i],
        forall|i: int| 0 <= i < r.len() ==> #[trigger] r[i] < squads.len(),
{
    let mut keys: Vec<Vec<u64>> = Vec::new();
    let mut n: usize = 0;
    while n < squads.len()
        invariant
            n <= squads.len(),
            keys.len() == n,
            forall|i: int| 0 <= i < n ==> (#[trigger] keys[i])@ == seq![squads[i].id.0 as u64],
        decreases squads.len() - n,
    {
        let mut key: Vec<u64> = Vec::new();
        key.push(squads[n].id.0 as u64);
        assert(key@ =~= seq![squads[n as int].id.0 as u64]);
        keys.push(key);
        n += 1;
    }
    assert(key_views(keys@) =~= squad_keys(squads@));
    stable_order(&keys)
}

} // verus!
