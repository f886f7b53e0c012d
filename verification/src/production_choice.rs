//! Which of the units that could be built is built next.
use crate::grid::{contains_position, read_before, reads_before, GridPosition, Terrain};
use crate::master_data::MasterDataRegistry;
use crate::order::{
    key_precedes, lemma_lex_by, lemma_lex_irreflexive, lemma_lex_total, lemma_lex_transitive,
    lex_less,
};
use crate::unit_score::{calculate_unit_score_at, unit_score, ScoreScene, ScoreTerms};
use crate::units::{UnitStats, UnitType};
use core::cmp::Ordering;
use vstd::prelude::*;

verus! {

/// A unit that could be built at a facility, and what it is worth.
#[derive(Clone, Copy, Debug, PartialEq, Eq, Structural)]
pub struct ProductionCandidate {
    pub score: u32,
    pub facility_position: GridPosition,
    pub unit_type: UnitType,
    pub cost: u32,
    pub max_cargo: u32,
    pub can_capture: bool,
}

/// The order of candidates: the highest worth first, then by place, type and cost.
pub open spec fn candidate_key(registry: MasterDataRegistry, c: ProductionCandidate) -> Seq<u64> {
    seq![
        (u64::MAX - c.score) as u64,
        c.facility_position.y as u64,
        c.facility_position.x as u64,
        registry.rank(c.unit_type) as u64,
        c.cost as u64,
    ]
}

/// The first candidate goes before the second.
pub open spec fn goes_before(
    registry: MasterDataRegistry,
    a: ProductionCandidate,
    b: ProductionCandidate,
) -> bool {
    lex_less(candidate_key(registry, a), candidate_key(registry, b))
}

pub fn key_of(registry: &MasterDataRegistry, c: &ProductionCandidate) -> (r: Vec<u64>)
    ensures
        r@ == candidate_key(*registry, *c),
{
    let rank: u32 = registry.campaign_unit_type_rank(c.unit_type);
    let mut r: Vec<u64> = Vec::new();
    r.push(u64::MAX - c.score as u64);
    r.push(c.facility_position.y as u64);
    r.push(c.facility_position.x as u64);
    r.push(rank as u64);
    r.push(c.cost as u64);
    r
}

/// Whether the first candidate goes before the second.
pub fn precedes(
    registry: &MasterDataRegistry,
    a: &ProductionCandidate,
    b: &ProductionCandidate,
) -> (r: bool)
    ensures
        r == goes_before(*registry, *a, *b),
{
    let left = key_of(registry, a);
    let right = key_of(registry, b);
    key_precedes(&left, &right)
}

/// The order of two candidates.
pub fn compare_production_candidates(
    registry: &MasterDataRegistry,
    left: &ProductionCandidate,
    right: &ProductionCandidate,
) -> (r: Ordering)
    ensures
        r == Ordering::Less <==> goes_before(*registry, *left, *right),
        r == Ordering::Greater <==> goes_before(*registry, *right, *left),
        r == Ordering::Equal <==> candidate_key(*registry, *left) == candidate_key(
            *registry,
            *right,
        ),
{
    proof {
        let a = candidate_key(*registry, *left);
        let b = candidate_key(*registry, *right);
        lemma_lex_total(a, b);
        lemma_lex_irreflexive(a);
        if lex_less(a, b) && lex_less(b, a) {
            lemma_lex_transitive(a, b, a);
        }
    }
    if precedes(registry, left, right) {
        Ordering::Less
    } else if precedes(registry, right, left) {
        Ordering::Greater
    } else {
        Ordering::Equal
    }
}

/// The index of the candidate to build among the first `n`: the first in order of those that are
/// worth anything.
pub open spec fn best_candidate(
    registry: MasterDataRegistry,
    candidates: Seq<ProductionCandidate>,
    n: int,
) -> Option<int>
    decreases n,
{
    if n <= 0 {
        None
    } else {
        let best = best_candidate(registry, candidates, n - 1);
        if candidates[n - 1].score == 0 {
            best
        } else {
            match best {
                Some(b) => if goes_before(registry, candidates[n - 1], candidates[b]) {
                    Some(n - 1)
                } else {
                    best
                },
                None => Some(n - 1),
            }
        }
    }
}

/// The candidate to build.
pub open spec fn chosen(
    registry: MasterDataRegistry,
    candidates: Seq<ProductionCandidate>,
) -> Option<ProductionCandidate> {
    match best_candidate(registry, candidates, candidates.len() as int) {
        Some(b) => Some(candidates[b]),
        None => None,
    }
}

/// The index of the candidate to build, if any is worth anything.
pub fn best_candidate_index(
    registry: &MasterDataRegistry,
    candidates: &Vec<ProductionCandidate>,
) -> (r: Option<usize>)
    ensures
        match r {
            Some(b) => b < candidates.len() && best_candidate(
                *registry,
                candidates@,
                candidates.len() as int,
            ) == Some(b as int),
            None => best_candidate(*registry, candidates@, candidates.len() as int) is None,
        },
{
    let mut best: Option<usize> = None;
    let mut n: usize = 0;
    while n < candidates.len()
        invariant
            n <= candidates.len(),
            match best {
                Some(b) => b < n && best_candidate(*registry, candidates@, n as int) == Some(
                    b as int,
                ),
                None => best_candidate(*registry, candidates@, n as int) is None,
            },
        decreases candidates.len() - n,
    {
        if candidates[n].score > 0 {
            best =
            match best {
                Some(b) => if precedes(registry, &candidates[n], &candidates[b]) {
                    Some(n)
                } else {
                    Some(b)
                },
                None => Some(n),
            };
        }
        n += 1;
    }
    best
}

/// The candidate to build, if any is worth anything.
pub fn select_best_production_candidate(
    registry: &MasterDataRegistry,
    candidates: &Vec<ProductionCandidate>,
) -> (r: Option<ProductionCandidate>)
    ensures
        r == chosen(*registry, candidates@),
{
    match best_candidate_index(registry, candidates) {
        Some(b) => Some(candidates[b]),
        None => None,
    }
}

/// The chosen candidate is worth something, and none that is worth something goes before it.
pub proof fn lemma_best_candidate(
    registry: MasterDataRegistry,
    candidates: Seq<ProductionCandidate>,
    n: int,
)
    requires
        0 <= n <= candidates.len(),
    ensures
        match best_candidate(registry, candidates, n) {
            Some(b) => 0 <= b < n && candidates[b].score > 0 && forall|i: int|
                0 <= i < n && (#[trigger] candidates[i]).score > 0 ==> !goes_before(
                    registry,
                    candidates[i],
                    candidates[b],
                ),
            None => forall|i: int| 0 <= i < n ==> (#[trigger] candidates[i]).score == 0,
        },
    decreases n,
{
    if n > 0 {
        lemma_best_candidate(registry, candidates, n - 1);
        let last = candidate_key(registry, candidates[n - 1]);
        lemma_lex_irreflexive(last);
        if let Some(b) = best_candidate(registry, candidates, n - 1) {
            let key = candidate_key(registry, candidates[b]);
            assert forall|i: int|
                0 <= i < n - 1 && (#[trigger] candidates[i]).score > 0 && lex_less(
                    last,
                    key,
                ) implies !goes_before(registry, candidates[i], candidates[n - 1]) by {
                if goes_before(registry, candidates[i], candidates[n - 1]) {
                    lemma_lex_transitive(candidate_key(registry, candidates[i]), last, key);
                }
            }
        }
    }
}

/// The choice does not depend on the order in which the candidates are listed: two lists of the
/// same candidates choose candidates that stand at the same place in the order, and so the same
/// one wherever no two candidates share a place.
pub proof fn law_choice_ignores_listing_order(
    registry: MasterDataRegistry,
    a: Seq<ProductionCandidate>,
    b: Seq<ProductionCandidate>,
)
    requires
        forall|c: ProductionCandidate| #[trigger] a.contains(c) <==> b.contains(c),
    ensures
        match (chosen(registry, a), chosen(registry, b)) {
            (Some(x), Some(y)) => {
                &&& candidate_key(registry, x) == candidate_key(registry, y)
                &&& (forall|i: int, j: int|
                    0 <= i < a.len() && 0 <= j < a.len() && candidate_key(
                        registry,
                        #[trigger] a[i],
                    ) == candidate_key(registry, #[trigger] a[j]) ==> a[i] == a[j]) ==> x == y
            },
            (None, None) => true,
            _ => false,
        },
{
    lemma_best_candidate(registry, a, a.len() as int);
    lemma_best_candidate(registry, b, b.len() as int);
    let first = best_candidate(registry, a, a.len() as int);
    let second = best_candidate(registry, b, b.len() as int);
    if let Some(i) = first {
        assert(a.contains(a[i]));
        assert(b.contains(a[i]));
        let at = choose|k: int| 0 <= k < b.len() && b[k] == a[i];
        assert(b[at].score > 0);
        if let Some(j) = second {
            assert(b.contains(b[j]));
            assert(a.contains(b[j]));
            let back = choose|k: int| 0 <= k < a.len() && a[k] == b[j];
            assert(a[back].score > 0);
            lemma_lex_total(candidate_key(registry, a[i]), candidate_key(registry, b[j]));
        }
    } else if let Some(j) = second {
        assert(b.contains(b[j]));
        assert(a.contains(b[j]));
        let back = choose|k: int| 0 <= k < a.len() && a[k] == b[j];
        assert(a[back].score > 0);
    }
}

/// The pairs of a facility and one of the first `m` types that it can build for the funds.
pub open spec fn options_at(
    registry: MasterDataRegistry,
    facilities: Seq<(GridPosition, Terrain)>,
    types: Seq<(UnitType, UnitStats)>,
    funds: u32,
    f: int,
    m: int,
) -> Seq<(usize, usize)>
    decreases m,
{
    if m <= 0 {
        Seq::empty()
    } else {
        let rest = options_at(registry, facilities, types, funds, f, m - 1);
        if registry.builds_type(facilities[f].1, types[m - 1].0) && types[m - 1].1.cost <= funds {
            rest.push((f as usize, (m - 1) as usize))
        } else {
            rest
        }
    }
}

/// The pairs of a type and one of the first `n` facilities that is not used yet and can build it
/// for the funds.
pub open spec fn options(
    registry: MasterDataRegistry,
    facilities: Seq<(GridPosition, Terrain)>,
    types: Seq<(UnitType, UnitStats)>,
    used: Seq<GridPosition>,
    funds: u32,
    n: int,
) -> Seq<(usize, usize)>
    decreases n,
{
    if n <= 0 {
        Seq::empty()
    } else {
        let rest = options(registry, facilities, types, used, funds, n - 1);
        if used.contains(facilities[n - 1].0) {
            rest
        } else {
            rest + options_at(registry, facilities, types, funds, n - 1, types.len() as int)
        }
    }
}

/// The pairs are indices of a facility and of a type.
pub open spec fn in_bounds(list: Seq<(usize, usize)>, facilities: nat, types: nat) -> bool {
    forall|i: int|
        0 <= i < list.len() ==> (#[trigger] list[i]).0 < facilities && list[i].1 < types
}

fn list_options_at(
    registry: &MasterDataRegistry,
    facilities: &Vec<(GridPosition, Terrain)>,
    types: &Vec<(UnitType, UnitStats)>,
    funds: u32,
    f: usize,
    list: &mut Vec<(usize, usize)>,
)
    requires
        f < facilities.len(),
        in_bounds(old(list)@, facilities.len() as nat, types.len() as nat),
    ensures
        final(list)@ == old(list)@ + options_at(
            *registry,
            facilities@,
            types@,
            funds,
            f as int,
            types.len() as int,
        ),
        in_bounds(final(list)@, facilities.len() as nat, types.len() as nat),
{
    let ghost start = list@;
    let mut m: usize = 0;
    assert(list@ =~= start + options_at(*registry, facilities@, types@, funds, f as int, 0));
    while m < types.len()
        invariant
            m <= types.len(),
            f < facilities.len(),
            in_bounds(list@, facilities.len() as nat, types.len() as nat),
            list@ == start + options_at(
                *registry,
                facilities@,
                types@,
                funds,
                f as int,
                m as int,
            ),
        decreases types.len() - m,
    {
        let ghost before = list@;
        if registry.can_produce_unit(facilities[f].1, types[m].0) && types[m].1.cost <= funds {
            list.push((f, m));
            assert(list@ =~= start + options_at(
                *registry,
                facilities@,
                types@,
                funds,
                f as int,
                m + 1,
            ));
            assert forall|i: int| 0 <= i < list.len() implies (#[trigger] list@[i]).0
                < facilities.len() && list@[i].1 < types.len() by {
                if i < before.len() {
                    assert(list@[i] == before[i]);
                }
            }
        }
        m += 1;
    }
}

/// What can be built now: pairs of the indices of a facility that is not used yet and of a type
/// that it can build for the funds.
pub fn production_options(
    registry: &MasterDataRegistry,
    facilities: &Vec<(GridPosition, Terrain)>,
    types: &Vec<(UnitType, UnitStats)>,
    used: &Vec<GridPosition>,
    funds: u32,
) -> (r: Vec<(usize, usize)>)
    ensures
        r@ == options(
            *registry,
            facilities@,
            types@,
            used@,
            funds,
            facilities.len() as int,
        ),
        in_bounds(r@, facilities.len() as nat, types.len() as nat),
{
    let mut r: Vec<(usize, usize)> = Vec::new();
    let mut n: usize = 0;
    while n < facilities.len()
        invariant
            n <= facilities.len(),
            r@ == options(*registry, facilities@, types@, used@, funds, n as int),
            in_bounds(r@, facilities.len() as nat, types.len() as nat),
        decreases facilities.len() - n,
    {
        if !contains_position(used, facilities[n].0) {
            list_options_at(registry, facilities, types, funds, n, &mut r);
        }
        n += 1;
    }
    r
}

/// The facility among the first `n` that comes first in reading order of those that build the
/// type.
pub open spec fn home_of(
    registry: MasterDataRegistry,
    facilities: Seq<(GridPosition, Terrain)>,
    unit_type: UnitType,
    n: int,
) -> Option<int>
    decreases n,
{
    if n <= 0 {
        None
    } else {
        let best = home_of(registry, facilities, unit_type, n - 1);
        if !registry.builds_type(facilities[n - 1].1, unit_type) {
            best
        } else {
            match best {
                Some(b) => if read_before(facilities[n - 1].0, facilities[b].0) {
                    Some(n - 1)
                } else {
                    best
                },
                None => Some(n - 1),
            }
        }
    }
}

fn find_home(
    registry: &MasterDataRegistry,
    facilities: &Vec<(GridPosition, Terrain)>,
    unit_type: UnitType,
) -> (r: Option<usize>)
    ensures
        match r {
            Some(b) => b < facilities.len() && home_of(
                *registry,
                facilities@,
                unit_type,
                facilities.len() as int,
            ) == Some(b as int),
            None => home_of(
                *registry,
                facilities@,
                unit_type,
                facilities.len() as int,
            ) is None,
        },
{
    let mut best: Option<usize> = None;
    let mut n: usize = 0;
    while n < facilities.len()
        invariant
            n <= facilities.len(),
            match best {
                Some(b) => b < n && home_of(*registry, facilities@, unit_type, n as int) == Some(
                    b as int,
                ),
                None => home_of(*registry, facilities@, unit_type, n as int) is None,
            },
        decreases facilities.len() - n,
    {
        if registry.can_produce_unit(facilities[n].1, unit_type) {
            best =
            match best {
                Some(b) => if reads_before(facilities[n].0, facilities[b].0) {
                    Some(n)
                } else {
                    Some(b)
                },
                None => Some(n),
            };
        }
        n += 1;
    }
    best
}

/// What a player could save for: each of the first `m` types that can be built at all, at its
/// first facility.
pub open spec fn savings(
    registry: MasterDataRegistry,
    facilities: Seq<(GridPosition, Terrain)>,
    types: Seq<(UnitType, UnitStats)>,
    m: int,
) -> Seq<(usize, usize)>
    decreases m,
{
    if m <= 0 {
        Seq::empty()
    } else {
        let rest = savings(registry, facilities, types, m - 1);
        match home_of(registry, facilities, types[m - 1].0, facilities.len() as int) {
            Some(f) => rest.push((f as usize, (m - 1) as usize)),
            None => rest,
        }
    }
}

/// What a player could save for: pairs of the indices of a type that can be built at all and of
/// its first facility.
pub fn saving_options(
    registry: &MasterDataRegistry,
    facilities: &Vec<(GridPosition, Terrain)>,
    types: &Vec<(UnitType, UnitStats)>,
) -> (r: Vec<(usize, usize)>)
    ensures
        r@ == savings(*registry, facilities@, types@, types.len() as int),
        in_bounds(r@, facilities.len() as nat, types.len() as nat),
{
    let mut r: Vec<(usize, usize)> = Vec::new();
    let mut m: usize = 0;
    while m < types.len()
        invariant
            m <= types.len(),
            r@ == savings(*registry, facilities@, types@, m as int),
            in_bounds(r@, facilities.len() as nat, types.len() as nat),
        decreases types.len() - m,
    {
        if let Some(f) = find_home(registry, facilities, types[m].0) {
            let ghost before = r@;
            r.push((f, m));
            assert forall|i: int| 0 <= i < r.len() implies (#[trigger] r@[i]).0 < facilities.len()
                && r@[i].1 < types.len() by {
                if i < before.len() {
                    assert(r@[i] == before[i]);
                }
            }
        }
        m += 1;
    }
    r
}

/// What is weighed outside for one option.
#[derive(Clone, Copy, Debug)]
pub struct OptionWeight {
    /// Room for light and for heavy units across the sea.
    pub sea_slots: (u32, u32),
    pub terms: ScoreTerms,
}

/// The candidate that an option makes.
pub open spec fn candidate_of(
    scene: ScoreScene,
    facility: (GridPosition, Terrain),
    kind: (UnitType, UnitStats),
    weight: OptionWeight,
    is_v3: bool,
) -> ProductionCandidate {
    ProductionCandidate {
        score: unit_score(
            scene,
            kind.0,
            kind.1,
            facility.0,
            facility.1,
            weight.sea_slots,
            weight.terms,
            is_v3,
        ),
        facility_position: facility.0,
        unit_type: kind.0,
        cost: kind.1.cost,
        max_cargo: kind.1.max_cargo,
        can_capture: kind.1.can_capture,
    }
}

/// The candidates that the options make.
pub open spec fn candidates_of(
    scene: ScoreScene,
    facilities: Seq<(GridPosition, Terrain)>,
    types: Seq<(UnitType, UnitStats)>,
    list: Seq<(usize, usize)>,
    weights: Seq<OptionWeight>,
    is_v3: bool,
) -> Seq<ProductionCandidate> {
    Seq::new(
        list.len(),
        |i: int|
            candidate_of(
                scene,
                facilities[list[i].0 as int],
                types[list[i].1 as int],
                weights[i],
                is_v3,
            ),
    )
}

/// Scores every option.
pub fn score_options(
    scene: &ScoreScene,
    facilities: &Vec<(GridPosition, Terrain)>,
    types: &Vec<(UnitType, UnitStats)>,
    list: &Vec<(usize, usize)>,
    weights: &Vec<OptionWeight>,
    is_v3: bool,
) -> (r: Vec<ProductionCandidate>)
    requires
        in_bounds(list@, facilities.len() as nat, types.len() as nat),
        weights.len() == list.len(),
    ensures
        r@ == candidates_of(*scene, facilities@, types@, list@, weights@, is_v3),
{
    let mut r: Vec<ProductionCandidate> = Vec::new();
    let mut n: usize = 0;
    while n < list.len()
        invariant
            n <= list.len(),
            in_bounds(list@, facilities.len() as nat, types.len() as nat),
            weights.len() == list.len(),
            r.len() == n,
            forall|i: int|
                0 <= i < n ==> #[trigger] r[i] == candidates_of(
                    *scene,
                    facilities@,
                    types@,
                    list@,
                    weights@,
                    is_v3,
                )[i],
        decreases list.len() - n,
    {
        let (f, t) = list[n];
        assert(list@[n as int].0 < facilities.len() && list@[n as int].1 < types.len());
        let stats = &types[t].1;
        let score: u32 = calculate_unit_score_at(
            scene,
            types[t].0,
            stats,
            facilities[f].0,
            facilities[f].1,
            weights[n].sea_slots,
            &weights[n].terms,
            is_v3,
        );
        r.push(
            ProductionCandidate {
                score,
                facility_position: facilities[f].0,
                unit_type: types[t].0,
                cost: stats.cost,
                max_cargo: stats.max_cargo,
                can_capture: stats.can_capture,
            },
        );
        n += 1;
    }
    assert(r@ =~= candidates_of(*scene, facilities@, types@, list@, weights@, is_v3));
    r
}

/// The higher worth goes first; of equal worth the facility that stands higher on the map, then the
/// one further left, then the type with the lesser rank, then the lower price.
pub proof fn law_higher_worth_goes_first(
    registry: MasterDataRegistry,
    a: ProductionCandidate,
    b: ProductionCandidate,
)
    ensures
        goes_before(registry, a, b) <==> (if a.score != b.score {
            a.score > b.score
        } else if a.facility_position.y != b.facility_position.y {
            a.facility_position.y < b.facility_position.y
        } else if a.facility_position.x != b.facility_position.x {
            a.facility_position.x < b.facility_position.x
        } else if registry.rank(a.unit_type) != registry.rank(b.unit_type) {
            registry.rank(a.unit_type) < registry.rank(b.unit_type)
        } else {
            a.cost < b.cost
        }),
{
    let x = candidate_key(registry, a);
    let y = candidate_key(registry, b);
    lemma_lex_irreflexive(x);
    lemma_lex_total(x, y);
    if lex_less(x, y) && lex_less(y, x) {
        lemma_lex_transitive(x, y, x);
    }
    let k = if x[0] != y[0] {
        0int
    } else if x[1] != y[1] {
        1int
    } else if x[2] != y[2] {
        2int
    } else if x[3] != y[3] {
        3int
    } else {
        4int
    };
    if x[k] < y[k] {
        lemma_lex_by(x, y, k);
    } else if y[k] < x[k] {
        lemma_lex_by(y, x, k);
    } else {
        assert(x =~= y);
    }
}

/// What is built is worth something, and nothing is worth more. Nothing is built exactly if nothing
/// is worth anything.
pub proof fn law_choice_is_worth_most(
    registry: MasterDataRegistry,
    candidates: Seq<ProductionCandidate>,
)
    ensures
        match chosen(registry, candidates) {
            Some(c) => candidates.contains(c) && c.score > 0 && forall|i: int|
                0 <= i < candidates.len() ==> (#[trigger] candidates[i]).score <= c.score,
            None => forall|i: int| 0 <= i < candidates.len() ==> (#[trigger] candidates[i]).score == 0,
        },
{
    lemma_best_candidate(registry, candidates, candidates.len() as int);
    if let Some(b) = best_candidate(registry, candidates, candidates.len() as int) {
        assert(candidates.contains(candidates[b]));
        assert forall|i: int| 0 <= i < candidates.len() implies (#[trigger] candidates[i]).score
            <= candidates[b].score by {
            law_higher_worth_goes_first(registry, candidates[i], candidates[b]);
        }
    }
}

proof fn lemma_options_at_all(
    registry: MasterDataRegistry,
    facilities: Seq<(GridPosition, Terrain)>,
    types: Seq<(UnitType, UnitStats)>,
    funds: u32,
    f: int,
    m: int,
    pair: (usize, usize),
)
    requires
        0 <= m <= types.len(),
        types.len() <= usize::MAX,
        0 <= f <= usize::MAX,
    ensures
        options_at(registry, facilities, types, funds, f, m).contains(pair) <==> pair.0 == f
            && pair.1 < m && registry.builds_type(facilities[f].1, types[pair.1 as int].0)
            && types[pair.1 as int].1.cost <= funds,
    decreases m,
{
    if m > 0 {
        lemma_options_at_all(registry, facilities, types, funds, f, m - 1, pair);
        let rest = options_at(registry, facilities, types, funds, f, m - 1);
        let all = options_at(registry, facilities, types, funds, f, m);
        if rest.contains(pair) {
            let i = choose|i: int| 0 <= i < rest.len() && rest[i] == pair;
            assert(all[i] == pair);
        }
        if all.len() > rest.len() {
            assert(all[rest.len() as int] == (f as usize, (m - 1) as usize));
        }
        if all.contains(pair) {
            let i = choose|i: int| 0 <= i < all.len() && all[i] == pair;
            if i < rest.len() {
                assert(rest[i] == pair);
            }
        }
    }
}

proof fn lemma_options_all(
    registry: MasterDataRegistry,
    facilities: Seq<(GridPosition, Terrain)>,
    types: Seq<(UnitType, UnitStats)>,
    used: Seq<GridPosition>,
    funds: u32,
    n: int,
    pair: (usize, usize),
)
    requires
        0 <= n <= facilities.len(),
        types.len() <= usize::MAX,
        facilities.len() <= usize::MAX,
    ensures
        options(registry, facilities, types, used, funds, n).contains(pair) <==> pair.0 < n && pair.1
            < types.len() && !used.contains(facilities[pair.0 as int].0) && registry.builds_type(
            facilities[pair.0 as int].1,
            types[pair.1 as int].0,
        ) && types[pair.1 as int].1.cost <= funds,
    decreases n,
{
    if n > 0 {
        lemma_options_all(registry, facilities, types, used, funds, n - 1, pair);
        lemma_options_at_all(
            registry,
            facilities,
            types,
            funds,
            n - 1,
            types.len() as int,
            pair,
        );
        let rest = options(registry, facilities, types, used, funds, n - 1);
        let more = options_at(registry, facilities, types, funds, n - 1, types.len() as int);
        let all = rest + more;
        if rest.contains(pair) {
            let i = choose|i: int| 0 <= i < rest.len() && rest[i] == pair;
            assert(all[i] == pair);
        }
        if more.contains(pair) {
            let i = choose|i: int| 0 <= i < more.len() && more[i] == pair;
            assert(all[rest.len() + i] == pair);
        }
        if all.contains(pair) {
            let i = choose|i: int| 0 <= i < all.len() && all[i] == pair;
            if i < rest.len() {
                assert(rest[i] == pair);
            } else {
                assert(more[i - rest.len()] == pair);
            }
        }
    }
}

/// The options are exactly the pairs of a facility that is not used yet and of a type that it can
/// build for the money.
pub proof fn law_options_are_what_can_be_built(
    registry: MasterDataRegistry,
    facilities: Seq<(GridPosition, Terrain)>,
    types: Seq<(UnitType, UnitStats)>,
    used: Seq<GridPosition>,
    funds: u32,
    f: usize,
    t: usize,
)
    requires
        types.len() <= usize::MAX,
        facilities.len() <= usize::MAX,
    ensures
        options(registry, facilities, types, used, funds, facilities.len() as int).contains((f, t))
            <==> {
            &&& f < facilities.len()
            &&& t < types.len()
            &&& !used.contains(facilities[f as int].0)
            &&& registry.builds_type(facilities[f as int].1, types[t as int].0)
            &&& types[t as int].1.cost <= funds
        },
{
    lemma_options_all(
        registry,
        facilities,
        types,
        used,
        funds,
        facilities.len() as int,
        (f, t),
    );
}

proof fn lemma_home_of(
    registry: MasterDataRegistry,
    facilities: Seq<(GridPosition, Terrain)>,
    unit_type: UnitType,
    n: int,
)
    requires
        0 <= n <= facilities.len(),
    ensures
        match home_of(registry, facilities, unit_type, n) {
            Some(b) => 0 <= b < n && registry.builds_type(facilities[b].1, unit_type) && forall|
                i: int,
            |
                0 <= i < n && registry.builds_type((#[trigger] facilities[i]).1, unit_type)
                    ==> !read_before(facilities[i].0, facilities[b].0),
            None => forall|i: int|
                0 <= i < n ==> !registry.builds_type((#[trigger] facilities[i]).1, unit_type),
        },
    decreases n,
{
    if n > 0 {
        lemma_home_of(registry, facilities, unit_type, n - 1);
    }
}

/// What can be saved for is each type that some facility can build, whatever it costs, once, at a
/// facility that builds it and before which none that does comes in reading order.
pub proof fn law_savings_are_what_can_be_built_at_all(
    registry: MasterDataRegistry,
    facilities: Seq<(GridPosition, Terrain)>,
    types: Seq<(UnitType, UnitStats)>,
    m: int,
)
    requires
        0 <= m <= types.len(),
        types.len() <= usize::MAX,
        facilities.len() <= usize::MAX,
    ensures
        ({
            let all = savings(registry, facilities, types, m);
            &&& forall|i: int|
                0 <= i < all.len() ==> {
                    let (f, t) = #[trigger] all[i];
                    &&& f < facilities.len()
                    &&& t < m
                    &&& registry.builds_type(facilities[f as int].1, types[t as int].0)
                    &&& forall|g: int|
                        0 <= g < facilities.len() && registry.builds_type(
                            (#[trigger] facilities[g]).1,
                            types[t as int].0,
                        ) ==> !read_before(facilities[g].0, facilities[f as int].0)
                }
            &&& forall|i: int, j: int|
                0 <= i < j < all.len() ==> (#[trigger] all[i]).1 < (#[trigger] all[j]).1
            &&& forall|t: int, f: int|
                0 <= t < m && 0 <= f < facilities.len() && #[trigger] registry.builds_type(
                    facilities[f].1,
                    types[t].0,
                ) ==> exists|i: int| 0 <= i < all.len() && (#[trigger] all[i]).1 == t
        }),
    decreases m,
{
    if m > 0 {
        law_savings_are_what_can_be_built_at_all(registry, facilities, types, m - 1);
        lemma_home_of(registry, facilities, types[m - 1].0, facilities.len() as int);
        let rest = savings(registry, facilities, types, m - 1);
        let all = savings(registry, facilities, types, m);
        assert forall|i: int, j: int| 0 <= i < j < all.len() implies (#[trigger] all[i]).1 < (
        #[trigger] all[j]).1 by {
            assert(all[i] == rest[i]);
            if j < rest.len() {
                assert(all[j] == rest[j]);
            }
        }
        assert forall|i: int| 0 <= i < all.len() implies {
            let (f, t) = #[trigger] all[i];
            &&& f < facilities.len()
            &&& t < m
            &&& registry.builds_type(facilities[f as int].1, types[t as int].0)
            &&& forall|g: int|
                0 <= g < facilities.len() && registry.builds_type(
                    (#[trigger] facilities[g]).1,
                    types[t as int].0,
                ) ==> !read_before(facilities[g].0, facilities[f as int].0)
        } by {
            if i < rest.len() {
                assert(all[i] == rest[i]);
            }
        }
        assert forall|t: int, f: int|
            0 <= t < m && 0 <= f < facilities.len() && #[trigger] registry.builds_type(
                facilities[f].1,
                types[t].0,
            ) implies exists|i: int| 0 <= i < all.len() && (#[trigger] all[i]).1 == t by {
            if t < m - 1 {
                let i = choose|i: int| 0 <= i < rest.len() && (#[trigger] rest[i]).1 == t;
                assert(all[i] == rest[i]);
            } else {
                assert(all[rest.len() as int].1 == t);
            }
        }
    }
}

} // verus!
