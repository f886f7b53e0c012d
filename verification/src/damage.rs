//! How much damage the types do to each other.
use crate::units::UnitType;
use vstd::prelude::*;

verus! {

/// What one weapon of a type does to another type, in percent.
#[derive(Clone, Copy, Debug, PartialEq, Eq, Structural)]
pub struct DamageRow {
    pub attacker: UnitType,
    pub defender: UnitType,
    pub damage: u32,
}

/// The damage of the first and of the second weapon. Of two rows for the same pair the later one
/// counts.
#[derive(Clone, Debug)]
pub struct DamageChart {
    pub primary: Vec<DamageRow>,
    pub secondary: Vec<DamageRow>,
}

/// The damage in the last of the first `n` rows for the pair.
pub open spec fn damage_in(
    rows: Seq<DamageRow>,
    attacker: UnitType,
    defender: UnitType,
    n: int,
) -> Option<u32>
    decreases n,
{
    if n <= 0 {
        None
    } else if rows[n - 1].attacker == attacker && rows[n - 1].defender == defender {
        Some(rows[n - 1].damage)
    } else {
        damage_in(rows, attacker, defender, n - 1)
    }
}

/// The damage, or none done.
pub open spec fn or_zero(damage: Option<u32>) -> u32 {
    match damage {
        Some(d) => d,
        None => 0,
    }
}

fn find_damage(rows: &Vec<DamageRow>, attacker: UnitType, defender: UnitType) -> (r: Option<u32>)
    ensures
        r == damage_in(rows@, attacker, defender, rows.len() as int),
{
    let mut n: usize = rows.len();
    while n > 0
        invariant
            n <= rows.len(),
            damage_in(rows@, attacker, defender, rows.len() as int) == damage_in(
                rows@,
                attacker,
                defender,
                n as int,
            ),
        decreases n,
    {
        if rows[n - 1].attacker == attacker && rows[n - 1].defender == defender {
            return Some(rows[n - 1].damage);
        }
        n -= 1;
    }
    None
}

impl DamageChart {
    /// What the first weapon does.
    pub open spec fn first(self, attacker: UnitType, defender: UnitType) -> Option<u32> {
        damage_in(self.primary@, attacker, defender, self.primary.len() as int)
    }

    /// What the second weapon does.
    pub open spec fn second(self, attacker: UnitType, defender: UnitType) -> Option<u32> {
        damage_in(self.secondary@, attacker, defender, self.secondary.len() as int)
    }

    /// What the better weapon does.
    pub open spec fn best(self, attacker: UnitType, defender: UnitType) -> u32 {
        let a = or_zero(self.first(attacker, defender));
        let b = or_zero(self.second(attacker, defender));
        if a >= b {
            a
        } else {
            b
        }
    }

    /// A chart in which nobody harms anybody.
    pub fn new() -> (r: DamageChart)
        ensures
            r.primary@.len() == 0,
            r.secondary@.len() == 0,
    {
        DamageChart { primary: Vec::new(), secondary: Vec::new() }
    }

    /// Sets what the first weapon does.
    pub fn insert_damage(&mut self, attacker: UnitType, defender: UnitType, damage: u32)
        ensures
            final(self).primary@ == old(self).primary@.push(
                DamageRow { attacker, defender, damage },
            ),
            final(self).secondary@ == old(self).secondary@,
    {
        self.primary.push(DamageRow { attacker, defender, damage });
    }

    /// Sets what the second weapon does.
    pub fn insert_secondary_damage(&mut self, attacker: UnitType, defender: UnitType, damage: u32)
        ensures
            final(self).secondary@ == old(self).secondary@.push(
                DamageRow { attacker, defender, damage },
            ),
            final(self).primary@ == old(self).primary@,
    {
        self.secondary.push(DamageRow { attacker, defender, damage });
    }

    /// What the first weapon does.
    pub fn get_base_damage(&self, attacker: UnitType, defender: UnitType) -> (r: Option<u32>)
        ensures
            r == self.first(attacker, defender),
    {
        find_damage(&self.primary, attacker, defender)
    }

    /// What the second weapon does.
    pub fn get_base_damage_secondary(&self, attacker: UnitType, defender: UnitType) -> (r: Option<
        u32,
    >)
        ensures
            r == self.second(attacker, defender),
    {
        find_damage(&self.secondary, attacker, defender)
    }

    /// What the better weapon does.
    pub fn best_damage(&self, attacker: UnitType, defender: UnitType) -> (r: u32)
        ensures
            r == self.best(attacker, defender),
    {
        let a: u32 = match self.get_base_damage(attacker, defender) {
            Some(d) => d,
            None => 0,
        };
        let b: u32 = match self.get_base_damage_secondary(attacker, defender) {
            Some(d) => d,
            None => 0,
        };
        if a >= b {
            a
        } else {
            b
        }
    }

    /// One of the weapons harms one of the targets.
    pub open spec fn harms(self, attacker: UnitType, targets: Seq<UnitType>) -> bool {
        exists|i: int| 0 <= i < targets.len() && self.best(attacker, #[trigger] targets[i]) > 0
    }

    /// Whether one of the weapons harms one of the targets.
    pub fn harms_some(&self, attacker: UnitType, targets: &Vec<UnitType>) -> (r: bool)
        ensures
            r == self.harms(attacker, targets@),
    {
        let mut n: usize = 0;
        while n < targets.len()
            invariant
                n <= targets.len(),
                forall|i: int| 0 <= i < n ==> self.best(attacker, #[trigger] targets@[i]) == 0,
            decreases targets.len() - n,
        {
            if self.best_damage(attacker, targets[n]) > 0 {
                assert(self.best(attacker, targets@[n as int]) > 0);
                return true;
            }
            n += 1;
        }
        false
    }
}

} // verus!
