//! Strategic objectives: how much an island is worth.
use crate::grid::{GridPosition, Terrain};
use crate::islands::IslandId;
use crate::master_data::MasterDataRegistry;
use vstd::arithmetic::div_mod::{lemma_div_is_ordered, lemma_div_is_ordered_by_denominator};
use vstd::prelude::*;

verus! {

#[derive(Clone, Copy, Debug, PartialEq, Eq, PartialOrd, Ord, Structural)]
pub struct PriorityScore(pub i32);

#[derive(Clone, Copy, Debug, PartialEq, Eq, PartialOrd, Ord, Structural)]
pub struct InfantryCount(pub usize);

/// An island to take, what it is worth, and how many infantry units that needs.
#[derive(Clone, Copy, Debug, PartialEq, Eq, Structural)]
pub struct Objective {
    pub target_island: IslandId,
    pub priority_score: PriorityScore,
    pub needed_infantry: InfantryCount,
}

/// What the first `n` buildings earn each turn.
pub open spec fn total_income(
    properties: Seq<(GridPosition, Terrain)>,
    registry: MasterDataRegistry,
    n: int,
) -> int
    decreases n,
{
    if n <= 0 {
        0
    } else {
        total_income(properties, registry, n - 1) + registry.income(properties[n - 1].1)
    }
}

/// The greatest number of the score's type that is not above `value`, or the least one.
pub open spec fn clamp_score(value: int) -> int {
    if value > i32::MAX {
        i32::MAX as int
    } else if value < i32::MIN {
        i32::MIN as int
    } else {
        value
    }
}

/// Income per step: the quotient rounded towards zero. Where the divisor is zero the score is the
/// greatest one, or zero if there is no income either.
pub open spec fn expected_value(income: int, distance: int, enemy_production_count: int) -> int {
    let divisor = 1 + distance + 20 * enemy_production_count;
    if divisor > 0 {
        clamp_score(income / divisor)
    } else if divisor < 0 {
        clamp_score(-(income / (-divisor)))
    } else if income > 0 {
        i32::MAX as int
    } else {
        0
    }
}

proof fn lemma_total_income(
    properties: Seq<(GridPosition, Terrain)>,
    registry: MasterDataRegistry,
    n: int,
)
    requires
        0 <= n,
    ensures
        0 <= total_income(properties, registry, n) <= 0xffff_ffff * n,
    decreases n,
{
    if n > 0 {
        lemma_total_income(properties, registry, n - 1);
    }
}

impl Objective {
    /// Rates an island: the income of its buildings divided by one, the distance to the nearest
    /// own base and twenty for each enemy production site. An island without buildings is worth
    /// nothing, and takes one infantry unit all the same.
    pub fn evaluate(
        target_island: IslandId,
        properties: &[(GridPosition, Terrain)],
        distance_to_nearest_base: i32,
        enemy_production_count: u32,
        registry: &MasterDataRegistry,
    ) -> (r: Objective)
        ensures
            r.target_island == target_island,
            r.priority_score.0 == (if properties@.len() > 0 {
                expected_value(
                    total_income(properties@, *registry, properties@.len() as int),
                    distance_to_nearest_base as int,
                    enemy_production_count as int,
                )
            } else {
                0
            }),
            r.needed_infantry.0 == (if properties@.len() > 0 {
                properties@.len()
            } else {
                1
            }),
    {
        let mut income: u128 = 0;
        let count: usize = properties.len();
        let mut i: usize = 0;
        while i < count
            invariant
                i <= count,
                count == properties@.len(),
                income == total_income(properties@, *registry, i as int),
            decreases count - i,
        {
            proof {
                lemma_total_income(properties@, *registry, i as int);
            }
            income += registry.landscape_income(properties[i].1) as u128;
            i += 1;
        }
        proof {
            lemma_total_income(properties@, *registry, count as int);
        }
        let score: i32 = if count > 0 {
            Self::income_per_step(income, distance_to_nearest_base, enemy_production_count)
        } else {
            0
        };
        let needed: usize = if count > 0 {
            count
        } else {
            1
        };
        Objective {
            target_island,
            priority_score: PriorityScore(score),
            needed_infantry: InfantryCount(needed),
        }
    }

    fn income_per_step(income: u128, distance: i32, enemy_production_count: u32) -> (r: i32)
        requires
            income <= 0xffff_ffff * 0xffff_ffff_ffff_ffff,
        ensures
            r == expected_value(income as int, distance as int, enemy_production_count as int),
    {
        let divisor: i128 = 1 + distance as i128 + 20 * (enemy_production_count as i128);
        let income: i128 = income as i128;
        if divisor > 0 {
            let value: i128 = income / divisor;
            proof {
                let (a, b) = (income as int, divisor as int);
                assert(0 <= a / b <= a) by (nonlinear_arith)
                    requires
                        0 <= a,
                        0 < b,
                ;
            }
            if value > 0x7fff_ffff {
                0x7fff_ffff
            } else {
                value as i32
            }
        } else if divisor < 0 {
            let value: i128 = income / (-divisor);
            proof {
                let (a, b) = (income as int, -divisor as int);
                assert(0 <= a / b <= a) by (nonlinear_arith)
                    requires
                        0 <= a,
                        0 < b,
                ;
            }
            if value > 0x8000_0000 {
                i32::MIN
            } else {
                (-value) as i32
            }
        } else if income > 0 {
            0x7fff_ffff
        } else {
            0
        }
    }
}

/// A farther base or more enemy production never makes an island worth more.
pub proof fn law_distance_and_threat_lower_the_score(
    income: int,
    distance: int,
    farther: int,
    enemies: int,
    more_enemies: int,
)
    requires
        0 <= income,
        0 <= distance <= farther,
        0 <= enemies <= more_enemies,
    ensures
        expected_value(income, farther, more_enemies) <= expected_value(income, distance, enemies),
{
    lemma_div_is_ordered_by_denominator(
        income,
        1 + distance + 20 * enemies,
        1 + farther + 20 * more_enemies,
    );
}

/// At the same distance and threat, more income never makes an island worth less.
pub proof fn law_income_raises_the_score(income: int, more: int, distance: int, enemies: int)
    requires
        0 <= income <= more,
        0 <= distance,
        0 <= enemies,
    ensures
        expected_value(income, distance, enemies) <= expected_value(more, distance, enemies),
{
    lemma_div_is_ordered(income, more, 1 + distance + 20 * enemies);
}

/// The score is the income per step, rounded down: a step for the island itself, one for each step
/// of the way and twenty for each production site of an enemy. It goes no higher than its type.
pub proof fn law_score_is_income_per_step(income: int, distance: int, enemies: int)
    requires
        0 <= income,
        0 <= distance,
        0 <= enemies,
    ensures
        ({
            let score = expected_value(income, distance, enemies);
            let steps = 1 + distance + 20 * enemies;
            &&& 0 <= score <= i32::MAX
            &&& score * steps <= income
            &&& score < i32::MAX ==> income < (score + 1) * steps
        }),
{
    let steps = 1 + distance + 20 * enemies;
    let q = income / steps;
    assert(0 <= q && q * steps <= income < (q + 1) * steps) by (nonlinear_arith)
        requires
            q == income / steps,
            0 <= income,
            0 < steps,
    ;
    if q > i32::MAX {
        let score = i32::MAX as int;
        assert(score * steps <= q * steps) by (nonlinear_arith)
            requires
                score <= q,
                0 < steps,
        ;
    }
}

/// Every building adds its own income to that of the others, and nothing earns nothing.
pub proof fn law_income_adds_up(
    properties: Seq<(GridPosition, Terrain)>,
    more: (GridPosition, Terrain),
    registry: MasterDataRegistry,
)
    ensures
        total_income(Seq::<(GridPosition, Terrain)>::empty(), registry, 0) == 0,
        total_income(properties.push(more), registry, properties.len() + 1int) == total_income(
            properties,
            registry,
            properties.len() as int,
        ) + registry.income(more.1),
{
    lemma_income_of_prefix(properties, more, registry, properties.len() as int);
}

proof fn lemma_income_of_prefix(
    properties: Seq<(GridPosition, Terrain)>,
    more: (GridPosition, Terrain),
    registry: MasterDataRegistry,
    n: int,
)
    requires
        0 <= n <= properties.len(),
    ensures
        total_income(properties.push(more), registry, n) == total_income(properties, registry, n),
    decreases n,
{
    if n > 0 {
        lemma_income_of_prefix(properties, more, registry, n - 1);
    }
}

/// Where the way counts for less than nothing the score is the income per step all the same,
/// rounded toward zero: none or negative, and no lower than its type. Where it counts for nothing
/// any income is worth most.
pub proof fn law_score_on_a_way_below_nothing(income: int, distance: int, enemies: int)
    requires
        0 <= income,
        1 + distance + 20 * enemies <= 0,
    ensures
        ({
            let score = expected_value(income, distance, enemies);
            let steps = -(1 + distance + 20 * enemies);
            &&& steps == 0 && income > 0 ==> score == i32::MAX
            &&& steps == 0 && income == 0 ==> score == 0
            &&& steps > 0 ==> {
                &&& i32::MIN <= score <= 0
                &&& -score * steps <= income
                &&& score > i32::MIN ==> income < (-score + 1) * steps
            }
        }),
{
    let steps = -(1 + distance + 20 * enemies);
    if steps > 0 {
        let q = income / steps;
        assert(0 <= q && q * steps <= income < (q + 1) * steps) by (nonlinear_arith)
            requires
                q == income / steps,
                0 <= income,
                0 < steps,
        ;
        if -q < i32::MIN {
            let low = -(i32::MIN as int);
            assert(low * steps <= q * steps) by (nonlinear_arith)
                requires
                    low <= q,
                    0 < steps,
            ;
        }
    }
}

} // verus!
