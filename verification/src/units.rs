//! Players, unit types and what a unit is made of.
use vstd::prelude::*;

verus! {

#[derive(Clone, Copy, Debug, PartialEq, Eq, Hash, Structural)]
pub struct PlayerId(pub u32);

#[derive(Clone, Copy, Debug, PartialEq, Eq, Hash, Structural)]
pub enum UnitType {
    Infantry,
    Mech,
    Recon,
    SupplyTruck,
    Tank,
    TankZ,
    MdTank,
    Artillery,
    HeavySpGun,
    Rockets,
    AntiAir,
    Missiles,
    Fighter,
    Bomber,
    Bcopters,
    TransportHelicopter,
    Battleship,
    Cruiser,
    Submarine,
    Lander,
}

#[derive(Clone, Copy, Debug, PartialEq, Eq, Hash, Structural)]
pub enum MovementType {
    Infantry,
    Mech,
    Tank,
    Wheels,
    Air,
    Ship,
}

#[derive(Clone, Copy, Debug, PartialEq, Eq, Structural)]
pub struct Health {
    pub current: u32,
    pub max: u32,
}

#[derive(Clone, Copy, Debug, PartialEq, Eq, Structural)]
pub struct Fuel {
    pub current: u32,
    pub max: u32,
}

#[derive(Clone, Copy, Debug, PartialEq, Eq, Structural)]
pub struct Ammo {
    pub ammo1: u32,
    pub ammo2: u32,
}

/// What every unit of a type has in common.
#[derive(Clone, Debug)]
pub struct UnitStats {
    pub unit_type: UnitType,
    pub cost: u32,
    pub max_movement: u32,
    pub movement_type: MovementType,
    pub max_fuel: u32,
    pub max_ammo1: u32,
    pub max_ammo2: u32,
    pub min_range: u32,
    pub max_range: u32,
    pub can_capture: bool,
    pub can_supply: bool,
    pub max_cargo: u32,
    pub loadable_unit_types: Vec<UnitType>,
}

impl UnitStats {
    /// The two say the same.
    pub open spec fn same_as(self, other: UnitStats) -> bool {
        &&& self.unit_type == other.unit_type
        &&& self.cost == other.cost
        &&& self.max_movement == other.max_movement
        &&& self.movement_type == other.movement_type
        &&& self.max_fuel == other.max_fuel
        &&& self.max_ammo1 == other.max_ammo1
        &&& self.max_ammo2 == other.max_ammo2
        &&& self.min_range == other.min_range
        &&& self.max_range == other.max_range
        &&& self.can_capture == other.can_capture
        &&& self.can_supply == other.can_supply
        &&& self.max_cargo == other.max_cargo
        &&& self.loadable_unit_types@ == other.loadable_unit_types@
    }

    /// The same once more.
    pub fn duplicate(&self) -> (r: UnitStats)
        ensures
            r.same_as(*self),
    {
        let loadable_unit_types = self.loadable_unit_types.clone();
        assert(loadable_unit_types@ =~= self.loadable_unit_types@);
        UnitStats {
            unit_type: self.unit_type,
            cost: self.cost,
            max_movement: self.max_movement,
            movement_type: self.movement_type,
            max_fuel: self.max_fuel,
            max_ammo1: self.max_ammo1,
            max_ammo2: self.max_ammo2,
            min_range: self.min_range,
            max_range: self.max_range,
            can_capture: self.can_capture,
            can_supply: self.can_supply,
            max_cargo: self.max_cargo,
            loadable_unit_types,
        }
    }
}

/// Whether the list holds the type.
pub fn contains_type(list: &Vec<UnitType>, t: UnitType) -> (r: bool)
    ensures
        r == list@.contains(t),
{
    let mut i: usize = 0;
    while i < list.len()
        invariant
            i <= list.len(),
            forall|j: int| 0 <= j < i ==> list[j] != t,
        decreases list.len() - i,
    {
        if list[i] == t {
            assert(list@[i as int] == t);
            return true;
        }
        i += 1;
    }
    false
}

} // verus!
