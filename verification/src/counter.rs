//! How well a unit trades against the enemy's army.
use crate::damage::DamageChart;
use crate::grid::GridPosition;
use crate::units::{MovementType, UnitStats};
use vstd::prelude::*;

verus! {

/// How far a unit strikes in one turn.
pub open spec fn strike_reach(stats: UnitStats) -> int {
    stats.max_movement + stats.max_range
}

/// How easily the attacker gets to shoot, in tenths: always where it shoots farther and strikes
/// at least as far, or as far as the defender; mostly where it only shoots farther; half the time
/// where the defender shoots farther.
pub open spec fn engagement(attacker: UnitStats, defender: UnitStats) -> u32 {
    if attacker.max_range > defender.max_range {
        if strike_reach(attacker) >= strike_reach(defender) {
            10
        } else {
            8
        }
    } else if attacker.max_range < defender.max_range {
        5
    } else {
        10
    }
}

/// How easily the attacker gets to shoot, in tenths.
pub fn engagement_factor(attacker: &UnitStats, defender: &UnitStats) -> (r: u32)
    ensures
        r == engagement(*attacker, *defender),
{
    let ours: u64 = attacker.max_movement as u64 + attacker.max_range as u64;
    let theirs: u64 = defender.max_movement as u64 + defender.max_range as u64;
    if attacker.max_range > defender.max_range {
        if ours >= theirs {
            10
        } else {
            8
        }
    } else if attacker.max_range < defender.max_range {
        5
    } else {
        10
    }
}

/// What goes into the exchange of two units: the damage each way in percent, and how easily each
/// gets to shoot, in tenths.
#[derive(Clone, Copy, Debug, PartialEq, Eq, Structural)]
pub struct Exchange {
    pub damage_out: u32,
    pub damage_in: u32,
    pub engagement_out: u32,
    pub engagement_in: u32,
}

/// The exchange of the unit with the enemy.
pub fn exchange_with(unit: &UnitStats, enemy: &UnitStats, chart: &DamageChart) -> (r: Exchange)
    ensures
        r.damage_out == chart.best(unit.unit_type, enemy.unit_type),
        r.damage_in == chart.best(enemy.unit_type, unit.unit_type),
        r.engagement_out == engagement(*unit, *enemy),
        r.engagement_in == engagement(*enemy, *unit),
{
    Exchange {
        damage_out: chart.best_damage(unit.unit_type, enemy.unit_type),
        damage_in: chart.best_damage(enemy.unit_type, unit.unit_type),
        engagement_out: engagement_factor(unit, enemy),
        engagement_in: engagement_factor(enemy, unit),
    }
}

/// What the exchanges with the enemy's aircraft and with all others come to, and how many there
/// are.
#[derive(Clone, Copy, Debug, PartialEq, Eq, Structural)]
pub struct CounterEfficiencyComponents {
    pub non_air_net: i128,
    pub air_net: i128,
    pub non_air_count: u64,
    pub air_count: u64,
}

/// The sum of the nets of those of the first `n` enemies that fly, or of those that do not.
pub open spec fn net_sum(
    enemies: Seq<(GridPosition, UnitStats)>,
    nets: Seq<i64>,
    air: bool,
    n: int,
) -> int
    decreases n,
{
    if n <= 0 {
        0
    } else {
        net_sum(enemies, nets, air, n - 1) + (if (enemies[n - 1].1.movement_type
            == MovementType::Air) == air {
            nets[n - 1] as int
        } else {
            0
        })
    }
}

/// How many of the first `n` enemies fly, or do not.
pub open spec fn side_count(enemies: Seq<(GridPosition, UnitStats)>, air: bool, n: int) -> nat
    decreases n,
{
    if n <= 0 {
        0
    } else {
        side_count(enemies, air, n - 1) + (if (enemies[n - 1].1.movement_type == MovementType::Air)
            == air {
            1nat
        } else {
            0nat
        })
    }
}

/// Sums up what the exchanges with all enemies come to.
pub fn counter_efficiency_components(
    enemies: &Vec<(GridPosition, UnitStats)>,
    nets: &Vec<i64>,
) -> (r: CounterEfficiencyComponents)
    requires
        nets.len() == enemies.len(),
    ensures
        r.air_net == net_sum(enemies@, nets@, true, enemies.len() as int),
        r.non_air_net == net_sum(enemies@, nets@, false, enemies.len() as int),
        r.air_count == side_count(enemies@, true, enemies.len() as int),
        r.non_air_count == side_count(enemies@, false, enemies.len() as int),
{
    let mut r = CounterEfficiencyComponents {
        non_air_net: 0,
        air_net: 0,
        non_air_count: 0,
        air_count: 0,
    };
    let mut n: usize = 0;
    while n < enemies.len()
        invariant
            n <= enemies.len(),
            nets.len() == enemies.len(),
            r.air_net == net_sum(enemies@, nets@, true, n as int),
            r.non_air_net == net_sum(enemies@, nets@, false, n as int),
            r.air_count == side_count(enemies@, true, n as int),
            r.non_air_count == side_count(enemies@, false, n as int),
            -0x8000_0000_0000_0000 * n <= r.air_net <= 0x8000_0000_0000_0000 * n,
            -0x8000_0000_0000_0000 * n <= r.non_air_net <= 0x8000_0000_0000_0000 * n,
            r.air_count <= n,
            r.non_air_count <= n,
        decreases enemies.len() - n,
    {
        if enemies[n].1.movement_type == MovementType::Air {
            r.air_net = r.air_net + nets[n] as i128;
            r.air_count = r.air_count + 1;
        } else {
            r.non_air_net = r.non_air_net + nets[n] as i128;
            r.non_air_count = r.non_air_count + 1;
        }
        n += 1;
    }
    r
}

/// Every enemy counts once, in the air or not.
pub proof fn law_every_enemy_counts_once(enemies: Seq<(GridPosition, UnitStats)>, n: int)
    requires
        0 <= n,
    ensures
        side_count(enemies, true, n) + side_count(enemies, false, n) == n,
    decreases n,
{
    if n > 0 {
        law_every_enemy_counts_once(enemies, n - 1);
    }
}

/// Of two units that meet, one gets to shoot more easily than the other exactly if it shoots
/// farther.
pub proof fn law_longer_range_shoots_more(a: UnitStats, b: UnitStats)
    ensures
        engagement(a, b) > engagement(b, a) <==> a.max_range > b.max_range,
{
}

/// How easily a unit gets to shoot: always at an enemy that shoots no farther, if it strikes at
/// least as far or shoots just as far; eight times in ten where it shoots farther and strikes less
/// far; half the time at an enemy that shoots farther.
pub proof fn law_engagement_goes_by_range_and_reach(a: UnitStats, b: UnitStats)
    ensures
        a.max_range < b.max_range ==> engagement(a, b) == 5,
        a.max_range == b.max_range ==> engagement(a, b) == 10,
        a.max_range > b.max_range && a.max_movement + a.max_range >= b.max_movement + b.max_range
            ==> engagement(a, b) == 10,
        a.max_range > b.max_range && a.max_movement + a.max_range < b.max_movement + b.max_range
            ==> engagement(a, b) == 8,
{
}

/// Another enemy adds its net to its own side, in the air or not, and counts there once; the other
/// side is left as it was. No enemies come to nothing.
pub proof fn law_nets_add_up(
    enemies: Seq<(GridPosition, UnitStats)>,
    nets: Seq<i64>,
    more: (GridPosition, UnitStats),
    net: i64,
    air: bool,
)
    requires
        nets.len() == enemies.len(),
    ensures
        ({
            let n = enemies.len() as int;
            let joins = (more.1.movement_type == MovementType::Air) == air;
            &&& net_sum(enemies, nets, air, 0) == 0
            &&& side_count(enemies, air, 0) == 0
            &&& net_sum(enemies.push(more), nets.push(net), air, n + 1) == net_sum(
                enemies,
                nets,
                air,
                n,
            ) + (if joins {
                net as int
            } else {
                0
            })
            &&& side_count(enemies.push(more), air, n + 1) == side_count(enemies, air, n) + (
            if joins {
                1int
            } else {
                0
            })
        }),
{
    lemma_sums_of_prefix(enemies, nets, more, net, air, enemies.len() as int);
}

proof fn lemma_sums_of_prefix(
    enemies: Seq<(GridPosition, UnitStats)>,
    nets: Seq<i64>,
    more: (GridPosition, UnitStats),
    net: i64,
    air: bool,
    n: int,
)
    requires
        nets.len() == enemies.len(),
        0 <= n <= enemies.len(),
    ensures
        net_sum(enemies.push(more), nets.push(net), air, n) == net_sum(enemies, nets, air, n),
        side_count(enemies.push(more), air, n) == side_count(enemies, air, n),
    decreases n,
{
    if n > 0 {
        lemma_sums_of_prefix(enemies, nets, more, net, air, n - 1);
    }
}

} // verus!
