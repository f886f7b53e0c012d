//! Which units to build together: the set that is worth most for the money.
use crate::grid::GridPosition;
use crate::master_data::MasterDataRegistry;
use crate::order::{key_views, lemma_sort_prefix, sort_order, stable_order};
use crate::production_choice::{candidate_key, key_of, ProductionCandidate};
use vstd::prelude::*;

verus! {

/// What the chosen candidates are worth together.
pub open spec fn total_score(candidates: Seq<ProductionCandidate>, s: Seq<usize>) -> int
    decreases s.len(),
{
    if s.len() == 0 {
        0
    } else {
        total_score(candidates, s.drop_last()) + candidates[s.last() as int].score
    }
}

/// What the chosen candidates cost together.
pub open spec fn total_cost(candidates: Seq<ProductionCandidate>, s: Seq<usize>) -> int
    decreases s.len(),
{
    if s.len() == 0 {
        0
    } else {
        total_cost(candidates, s.drop_last()) + candidates[s.last() as int].cost
    }
}

/// No two of the chosen candidates share a facility.
pub open spec fn facilities_apart(candidates: Seq<ProductionCandidate>, s: Seq<usize>) -> bool {
    forall|i: int, j: int|
        0 <= i < j < s.len() ==> candidates[(#[trigger] s[i]) as int].facility_position
            != candidates[(#[trigger] s[j]) as int].facility_position
}

/// The candidates can be built together: each is listed, every facility builds at most one of
/// them, and the budget pays for all.
pub open spec fn is_selection(
    candidates: Seq<ProductionCandidate>,
    s: Seq<usize>,
    budget: u32,
) -> bool {
    &&& forall|i: int| 0 <= i < s.len() ==> (#[trigger] s[i]) < candidates.len()
    &&& facilities_apart(candidates, s)
    &&& total_cost(candidates, s) <= budget
}

/// The candidates can be built together, and no others are worth more.
pub open spec fn is_best_selection(
    candidates: Seq<ProductionCandidate>,
    s: Seq<usize>,
    budget: u32,
) -> bool {
    &&& is_selection(candidates, s, budget)
    &&& forall|t: Seq<usize>| #[trigger]
        is_selection(candidates, t, budget) ==> total_score(candidates, t) <= total_score(
            candidates,
            s,
        )
}

/// The candidates can be built together, and all are of those that are left.
pub open spec fn is_selection_of(
    candidates: Seq<ProductionCandidate>,
    left: Seq<usize>,
    s: Seq<usize>,
    budget: int,
) -> bool {
    &&& forall|i: int| 0 <= i < s.len() ==> left.contains(#[trigger] s[i])
    &&& facilities_apart(candidates, s)
    &&& total_cost(candidates, s) <= budget
}

/// The candidates can be built together, and no others of those that are left are worth more.
pub open spec fn is_best_of(
    candidates: Seq<ProductionCandidate>,
    left: Seq<usize>,
    s: Seq<usize>,
    budget: int,
) -> bool {
    &&& is_selection_of(candidates, left, s, budget)
    &&& forall|t: Seq<usize>| #[trigger]
        is_selection_of(candidates, left, t, budget) ==> total_score(candidates, t) <= total_score(
            candidates,
            s,
        )
}

/// One of the best sets of what is left has the candidate.
pub open spec fn is_in_some_best(
    candidates: Seq<ProductionCandidate>,
    left: Seq<usize>,
    budget: int,
    k: usize,
) -> bool {
    exists|s: Seq<usize>| #[trigger]
        is_best_of(candidates, left, s, budget) && s.contains(k)
}

/// Those of the first `n` that are left whose facility is another one.
pub open spec fn elsewhere(
    candidates: Seq<ProductionCandidate>,
    left: Seq<usize>,
    facility: GridPosition,
    n: int,
) -> Seq<usize>
    decreases n,
{
    if n <= 0 {
        Seq::empty()
    } else {
        let rest = elsewhere(candidates, left, facility, n - 1);
        if candidates[left[n - 1] as int].facility_position == facility {
            rest
        } else {
            rest.push(left[n - 1])
        }
    }
}

/// What is left elsewhere is of what was left, and none of it is at the facility.
pub proof fn lemma_elsewhere(
    candidates: Seq<ProductionCandidate>,
    left: Seq<usize>,
    facility: GridPosition,
    n: int,
)
    requires
        0 <= n <= left.len(),
    ensures
        elsewhere(candidates, left, facility, n).len() <= n,
        forall|k: usize| #[trigger]
            elsewhere(candidates, left, facility, n).contains(k) ==> left.contains(k)
                && candidates[k as int].facility_position != facility,
        forall|j: int|
            0 <= j < n && candidates[(#[trigger] left[j]) as int].facility_position != facility
                ==> elsewhere(candidates, left, facility, n).contains(left[j]),
        n > 0 && candidates[left[0] as int].facility_position == facility ==> elsewhere(
            candidates,
            left,
            facility,
            n,
        ).len() < n,
    decreases n,
{
    if n > 0 {
        lemma_elsewhere(candidates, left, facility, n - 1);
        let rest = elsewhere(candidates, left, facility, n - 1);
        let all = elsewhere(candidates, left, facility, n);
        assert forall|k: usize| #[trigger] all.contains(k) implies left.contains(k)
            && candidates[k as int].facility_position != facility by {
            let j = choose|j: int| 0 <= j < all.len() && all[j] == k;
            if j < rest.len() {
                assert(rest[j] == k);
                assert(rest.contains(k));
            } else {
                assert(left[n - 1] == k);
            }
        }
        assert forall|j: int|
            0 <= j < n && candidates[(#[trigger] left[j]) as int].facility_position
                != facility implies all.contains(left[j]) by {
            if j < n - 1 {
                assert(rest.contains(left[j]));
                let i = choose|i: int| 0 <= i < rest.len() && rest[i] == left[j];
                assert(all[i] == left[j]);
            } else {
                assert(all[rest.len() as int] == left[j]);
            }
        }
    }
}

/// What is left once the facility is taken.
pub open spec fn without(
    candidates: Seq<ProductionCandidate>,
    left: Seq<usize>,
    facility: GridPosition,
) -> Seq<usize> {
    elsewhere(candidates, left, facility, left.len() as int)
}

/// The best set of what is left. One candidate after the other, in the order in which they are
/// left, is taken if it is worth anything and one of the best sets of what is then left has it.
pub open spec fn best_set(
    candidates: Seq<ProductionCandidate>,
    left: Seq<usize>,
    budget: int,
) -> Seq<usize>
    decreases left.len(),
{
    if left.len() == 0 {
        Seq::empty()
    } else {
        let first = left[0];
        let c = candidates[first as int];
        proof {
            lemma_elsewhere(candidates, left, c.facility_position, left.len() as int);
        }
        if c.score > 0 && is_in_some_best(candidates, left, budget, first) {
            seq![first] + best_set(
                candidates,
                without(candidates, left, c.facility_position),
                budget - c.cost,
            )
        } else {
            best_set(candidates, left.drop_first(), budget)
        }
    }
}

/// What the candidates are ordered by.
pub open spec fn candidate_keys(
    registry: MasterDataRegistry,
    candidates: Seq<ProductionCandidate>,
) -> Seq<Seq<u64>> {
    Seq::new(candidates.len(), |i: int| candidate_key(registry, candidates[i]))
}

/// The indices of the candidates in their order.
pub open spec fn ranked(
    registry: MasterDataRegistry,
    candidates: Seq<ProductionCandidate>,
) -> Seq<usize> {
    Seq::new(
        candidates.len(),
        |i: int| sort_order(candidate_keys(registry, candidates))[i] as usize,
    )
}

proof fn lemma_one_less(candidates: Seq<ProductionCandidate>, s: Seq<usize>, k: int)
    requires
        0 <= k < s.len(),
        facilities_apart(candidates, s),
    ensures
        total_score(candidates, s) == total_score(candidates, s.remove(k))
            + candidates[s[k] as int].score,
        total_cost(candidates, s) == total_cost(candidates, s.remove(k))
            + candidates[s[k] as int].cost,
        facilities_apart(candidates, s.remove(k)),
        forall|i: int|
            0 <= i < s.len() - 1 ==> candidates[(#[trigger] s.remove(k)[i]) as int].facility_position
                != candidates[s[k] as int].facility_position && s.contains(s.remove(k)[i]),
    decreases s.len(),
{
    let t = s.remove(k);
    if k == s.len() - 1 {
        assert(t =~= s.drop_last());
    } else {
        assert forall|i: int, j: int| 0 <= i < j < s.len() - 1 implies candidates[(
        #[trigger] s.drop_last()[i]) as int].facility_position != candidates[(
        #[trigger] s.drop_last()[j]) as int].facility_position by {
            assert(candidates[s[i] as int].facility_position
                != candidates[s[j] as int].facility_position);
        }
        lemma_one_less(candidates, s.drop_last(), k);
        assert(t.drop_last() =~= s.drop_last().remove(k));
        assert(t.last() == s.last());
    }
    assert forall|i: int|
        0 <= i < s.len() - 1 implies candidates[(#[trigger] t[i]) as int].facility_position
        != candidates[s[k] as int].facility_position && s.contains(t[i]) by {
        let j = if i < k {
            i
        } else {
            i + 1
        };
        assert(t[i] == s[j]);
        if i < k {
            assert(candidates[s[i] as int].facility_position
                != candidates[s[k] as int].facility_position);
        } else {
            assert(candidates[s[k] as int].facility_position
                != candidates[s[i + 1] as int].facility_position);
        }
    }
    assert forall|i: int, j: int| 0 <= i < j < t.len() implies candidates[(
    #[trigger] t[i]) as int].facility_position != candidates[(
    #[trigger] t[j]) as int].facility_position by {
        let a = if i < k {
            i
        } else {
            i + 1
        };
        let b = if j < k {
            j
        } else {
            j + 1
        };
        assert(t[i] == s[a] && t[j] == s[b]);
        assert(candidates[s[a] as int].facility_position
            != candidates[s[b] as int].facility_position);
    }
}

proof fn lemma_one_more(candidates: Seq<ProductionCandidate>, first: usize, s: Seq<usize>)
    ensures
        total_score(candidates, seq![first] + s) == candidates[first as int].score + total_score(
            candidates,
            s,
        ),
        total_cost(candidates, seq![first] + s) == candidates[first as int].cost + total_cost(
            candidates,
            s,
        ),
    decreases s.len(),
{
    let t = seq![first] + s;
    if s.len() > 0 {
        lemma_one_more(candidates, first, s.drop_last());
        assert(t.drop_last() =~= seq![first] + s.drop_last());
        assert(t.last() == s.last());
    } else {
        assert(t.drop_last() =~= Seq::<usize>::empty());
        assert(s =~= Seq::<usize>::empty());
        assert(t.last() == first);
    }
}

/// A set of what is left elsewhere, with the candidate put before it, is a set of what is left.
proof fn lemma_put_before(
    candidates: Seq<ProductionCandidate>,
    left: Seq<usize>,
    x: usize,
    s: Seq<usize>,
    budget: int,
)
    requires
        left.contains(x),
        is_selection_of(
            candidates,
            without(candidates, left, candidates[x as int].facility_position),
            s,
            budget - candidates[x as int].cost,
        ),
    ensures
        is_selection_of(candidates, left, seq![x] + s, budget),
        total_score(candidates, seq![x] + s) == candidates[x as int].score + total_score(
            candidates,
            s,
        ),
{
    let f = candidates[x as int].facility_position;
    let t = seq![x] + s;
    lemma_one_more(candidates, x, s);
    lemma_elsewhere(candidates, left, f, left.len() as int);
    assert forall|i: int| 0 <= i < t.len() implies left.contains(#[trigger] t[i]) by {
        if i > 0 {
            assert(t[i] == s[i - 1]);
            assert(without(candidates, left, f).contains(s[i - 1]));
        }
    }
    assert forall|i: int, j: int| 0 <= i < j < t.len() implies candidates[(
    #[trigger] t[i]) as int].facility_position != candidates[(
    #[trigger] t[j]) as int].facility_position by {
        assert(t[j] == s[j - 1]);
        if i > 0 {
            assert(t[i] == s[i - 1]);
            assert(candidates[s[i - 1] as int].facility_position
                != candidates[s[j - 1] as int].facility_position);
        } else {
            assert(without(candidates, left, f).contains(s[j - 1]));
        }
    }
}

/// A set of what is left, with one candidate taken out, is a set of what is left elsewhere.
proof fn lemma_take_out(
    candidates: Seq<ProductionCandidate>,
    left: Seq<usize>,
    s: Seq<usize>,
    budget: int,
    k: int,
)
    requires
        0 <= k < s.len(),
        is_selection_of(candidates, left, s, budget),
    ensures
        ({
            let c = candidates[s[k] as int];
            &&& is_selection_of(
                candidates,
                without(candidates, left, c.facility_position),
                s.remove(k),
                budget - c.cost,
            )
            &&& total_score(candidates, s) == c.score + total_score(candidates, s.remove(k))
            &&& total_cost(candidates, s) == c.cost + total_cost(candidates, s.remove(k))
        }),
{
    let f = candidates[s[k] as int].facility_position;
    let t = s.remove(k);
    lemma_one_less(candidates, s, k);
    lemma_elsewhere(candidates, left, f, left.len() as int);
    assert forall|i: int| 0 <= i < t.len() implies without(candidates, left, f).contains(
        #[trigger] t[i],
    ) by {
        let j = if i < k {
            i
        } else {
            i + 1
        };
        assert(t[i] == s[j]);
        assert(left.contains(s[j]));
        let at = choose|at: int| 0 <= at < left.len() && left[at] == s[j];
        assert(candidates[t[i] as int].facility_position != f);
        assert(candidates[left[at] as int].facility_position != f);
    }
}

/// A set of what is left that leaves the facility alone is a set of what is left elsewhere.
proof fn lemma_leaves_alone(
    candidates: Seq<ProductionCandidate>,
    left: Seq<usize>,
    s: Seq<usize>,
    budget: int,
    f: GridPosition,
)
    requires
        is_selection_of(candidates, left, s, budget),
        forall|i: int|
            0 <= i < s.len() ==> candidates[(#[trigger] s[i]) as int].facility_position != f,
    ensures
        is_selection_of(candidates, without(candidates, left, f), s, budget),
{
    lemma_elsewhere(candidates, left, f, left.len() as int);
    assert forall|i: int| 0 <= i < s.len() implies without(candidates, left, f).contains(
        #[trigger] s[i],
    ) by {
        assert(left.contains(s[i]));
        let at = choose|at: int| 0 <= at < left.len() && left[at] == s[i];
        assert(candidates[left[at] as int].facility_position != f);
    }
}

/// What a set costs, and what it is worth.
#[derive(Clone, Copy, Debug, PartialEq, Eq, Structural)]
pub struct Bargain {
    pub cost: u64,
    pub score: u128,
}

/// One of the bargains costs no more and is worth no less.
pub open spec fn is_matched(front: Seq<Bargain>, cost: int, score: int) -> bool {
    exists|i: int|
        0 <= i < front.len() && (#[trigger] front[i]).cost <= cost && front[i].score >= score
}

/// The bargain is that of a set of what is left.
pub open spec fn is_struck(
    candidates: Seq<ProductionCandidate>,
    left: Seq<usize>,
    budget: int,
    b: Bargain,
) -> bool {
    exists|s: Seq<usize>| #[trigger]
        is_selection_of(candidates, left, s, budget) && total_cost(candidates, s) == b.cost
            && total_score(candidates, s) == b.score
}

/// Every bargain is that of a set of what is left, and they match every such set.
pub open spec fn is_front(
    candidates: Seq<ProductionCandidate>,
    left: Seq<usize>,
    budget: int,
    front: Seq<Bargain>,
) -> bool {
    &&& forall|i: int|
        0 <= i < front.len() ==> is_struck(candidates, left, budget, #[trigger] front[i])
    &&& forall|s: Seq<usize>| #[trigger]
        is_selection_of(candidates, left, s, budget) ==> is_matched(
            front,
            total_cost(candidates, s),
            total_score(candidates, s),
        )
}

fn find_elsewhere(
    candidates: &Vec<ProductionCandidate>,
    left: &Vec<usize>,
    facility: GridPosition,
) -> (r: Vec<usize>)
    requires
        forall|i: int| 0 <= i < left.len() ==> #[trigger] left[i] < candidates.len(),
    ensures
        r@ == without(candidates@, left@, facility),
        forall|i: int| 0 <= i < r.len() ==> #[trigger] r[i] < candidates.len(),
{
    let mut r: Vec<usize> = Vec::new();
    let mut n: usize = 0;
    while n < left.len()
        invariant
            n <= left.len(),
            forall|i: int| 0 <= i < left.len() ==> #[trigger] left[i] < candidates.len(),
            r@ == elsewhere(candidates@, left@, facility, n as int),
            forall|i: int| 0 <= i < r.len() ==> #[trigger] r[i] < candidates.len(),
        decreases left.len() - n,
    {
        if candidates[left[n]].facility_position != facility {
            r.push(left[n]);
        }
        n += 1;
    }
    r
}

/// Adds the bargain unless it is matched, and drops those that it makes worthless.
fn add_bargain(front: &Vec<Bargain>, b: Bargain) -> (r: Vec<Bargain>)
    ensures
        forall|i: int| 0 <= i < r.len() ==> (#[trigger] r[i]) == b || front@.contains(r[i]),
        is_matched(r@, b.cost as int, b.score as int),
        forall|cost: int, score: int| #[trigger]
            is_matched(front@, cost, score) ==> is_matched(r@, cost, score),
{
    let mut matched: bool = false;
    let mut kept: Vec<Bargain> = Vec::new();
    let mut n: usize = 0;
    while n < front.len()
        invariant
            n <= front.len(),
            matched ==> is_matched(front@, b.cost as int, b.score as int),
            forall|i: int| 0 <= i < kept.len() ==> front@.contains(#[trigger] kept[i]),
            forall|i: int|
                0 <= i < n ==> kept@.contains(#[trigger] front[i]) || (b.cost <= front[i].cost
                    && b.score >= front[i].score),
        decreases front.len() - n,
    {
        let other = front[n];
        let ghost before = kept@;
        if other.cost <= b.cost && other.score >= b.score {
            matched = true;
            assert(front[n as int].cost <= b.cost);
        }
        if b.cost <= other.cost && b.score >= other.score {
        } else {
            kept.push(other);
            assert(kept@[before.len() as int] == other);
            assert(front@.contains(front@[n as int]));
        }
        assert forall|i: int| 0 <= i < n + 1 implies kept@.contains(#[trigger] front[i]) || (b.cost
            <= front[i].cost && b.score >= front[i].score) by {
            if i < n && before.contains(front[i]) {
                let j = choose|j: int| 0 <= j < before.len() && before[j] == front[i];
                assert(kept@[j] == front[i]);
            }
        }
        n += 1;
    }
    if matched {
        let r = front.clone();
        proof {
            assert(r@ =~= front@);
            assert forall|i: int| 0 <= i < r.len() implies (#[trigger] r[i]) == b || front@.contains(
                r[i],
            ) by {
                assert(front@[i] == r[i]);
            }
        }
        return r;
    }
    let ghost before = kept@;
    kept.push(b);
    proof {
        let r = kept@;
        assert(r[before.len() as int] == b);
        assert forall|cost: int, score: int| #[trigger]
            is_matched(front@, cost, score) implies is_matched(r, cost, score) by {
            let i = choose|i: int|
                0 <= i < front.len() && (#[trigger] front[i]).cost <= cost && front[i].score >= score;
            if before.contains(front[i]) {
                let j = choose|j: int| 0 <= j < before.len() && before[j] == front[i];
                assert(r[j] == front[i]);
            } else {
                assert(r[before.len() as int].cost <= cost);
            }
        }
        assert forall|i: int| 0 <= i < r.len() implies (#[trigger] r[i]) == b || front@.contains(
            r[i],
        ) by {
            if i < before.len() {
                assert(before[i] == r[i]);
            }
        }
    }
    kept
}

/// Every bargain is that of a set of what is left, and within what so many candidates can come to.
spec fn is_sound(
    candidates: Seq<ProductionCandidate>,
    left: Seq<usize>,
    budget: u32,
    front: Seq<Bargain>,
) -> bool {
    forall|i: int|
        0 <= i < front.len() ==> is_struck(candidates, left, budget as int, #[trigger] front[i])
            && front[i].cost <= budget && front[i].score <= 0xffff_ffff * left.len()
}

/// Whatever the first bargains match, the second ones match.
spec fn is_no_worse(before: Seq<Bargain>, after: Seq<Bargain>) -> bool {
    forall|cost: int, score: int| #[trigger]
        is_matched(before, cost, score) ==> is_matched(after, cost, score)
}

/// The bargains match each of the first `n` bargains of the base with the candidate added, as far
/// as the budget pays for it.
spec fn takes_up(
    front: Seq<Bargain>,
    base: Seq<Bargain>,
    x: ProductionCandidate,
    budget: u32,
    n: int,
) -> bool {
    forall|i: int|
        0 <= i < n && (#[trigger] base[i]).cost + x.cost <= budget ==> is_matched(
            front,
            base[i].cost + x.cost,
            base[i].score + x.score,
        )
}

proof fn lemma_struck_with(
    candidates: Seq<ProductionCandidate>,
    left: Seq<usize>,
    budget: u32,
    x: usize,
    b: Bargain,
    more: Bargain,
)
    requires
        left.contains(x),
        is_struck(
            candidates,
            without(candidates, left, candidates[x as int].facility_position),
            budget as int,
            b,
        ),
        more.cost == b.cost + candidates[x as int].cost,
        more.cost <= budget,
        more.score == b.score + candidates[x as int].score,
    ensures
        is_struck(candidates, left, budget as int, more),
{
    let c = candidates[x as int];
    let others = without(candidates, left, c.facility_position);
    let s = choose|s: Seq<usize>| #[trigger]
        is_selection_of(candidates, others, s, budget as int) && total_cost(candidates, s) == b.cost
            && total_score(candidates, s) == b.score;
    assert(is_selection_of(candidates, others, s, budget as int - c.cost));
    lemma_put_before(candidates, left, x, s, budget as int);
    lemma_one_more(candidates, x, s);
    assert(is_selection_of(candidates, left, seq![x] + s, budget as int));
}

proof fn lemma_added_sound(
    candidates: Seq<ProductionCandidate>,
    left: Seq<usize>,
    budget: u32,
    before: Seq<Bargain>,
    more: Bargain,
    after: Seq<Bargain>,
)
    requires
        is_sound(candidates, left, budget, before),
        is_struck(candidates, left, budget as int, more),
        more.cost <= budget,
        more.score <= 0xffff_ffff * left.len(),
        forall|i: int| 0 <= i < after.len() ==> (#[trigger] after[i]) == more || before.contains(after[i]),
    ensures
        is_sound(candidates, left, budget, after),
{
    assert forall|i: int| 0 <= i < after.len() implies is_struck(
        candidates,
        left,
        budget as int,
        #[trigger] after[i],
    ) && after[i].cost <= budget && after[i].score <= 0xffff_ffff * left.len() by {
        if after[i] != more {
            let j = choose|j: int| 0 <= j < before.len() && before[j] == after[i];
            assert(is_struck(candidates, left, budget as int, before[j]));
        }
    }
}

/// Adds to the bargains what comes of the candidate and each bargain of the base.
fn add_candidate(
    candidates: &Vec<ProductionCandidate>,
    left: &Vec<usize>,
    others: &Vec<usize>,
    base: &Vec<Bargain>,
    start: Vec<Bargain>,
    x: usize,
    budget: u32,
) -> (r: Vec<Bargain>)
    requires
        x < candidates.len(),
        left@.contains(x),
        others@ == without(candidates@, left@, candidates[x as int].facility_position),
        others.len() < left.len(),
        is_sound(candidates@, others@, budget, base@),
        is_sound(candidates@, left@, budget, start@),
    ensures
        is_sound(candidates@, left@, budget, r@),
        is_no_worse(start@, r@),
        takes_up(r@, base@, candidates[x as int], budget, base.len() as int),
{
    let ghost c = candidates@;
    let ghost first = start@;
    let unit = candidates[x];
    let mut front = start;
    let mut m: usize = 0;
    while m < base.len()
        invariant
            m <= base.len(),
            c == candidates@,
            x < c.len(),
            unit == c[x as int],
            left@.contains(x),
            others@ == without(c, left@, unit.facility_position),
            others.len() < left.len(),
            is_sound(c, others@, budget, base@),
            is_sound(c, left@, budget, front@),
            is_no_worse(first, front@),
            takes_up(front@, base@, unit, budget, m as int),
        decreases base.len() - m,
    {
        let b = base[m];
        assert(is_struck(c, others@, budget as int, base@[m as int]));
        let cost: u64 = b.cost + unit.cost as u64;
        if cost <= budget as u64 {
            assert(b.score <= 0xffff_ffff * others.len());
            let score: u128 = b.score + unit.score as u128;
            let more = Bargain { cost, score };
            let ghost before = front@;
            front = add_bargain(&front, more);
            proof {
                lemma_struck_with(c, left@, budget, x, b, more);
                lemma_added_sound(c, left@, budget, before, more, front@);
                assert forall|i: int|
                    0 <= i < m + 1 && (#[trigger] base[i]).cost + unit.cost
                        <= budget implies is_matched(
                    front@,
                    base[i].cost + unit.cost,
                    base[i].score + unit.score,
                ) by {
                    if i < m {
                        assert(is_matched(
                            before,
                            base[i].cost + unit.cost,
                            base[i].score + unit.score,
                        ));
                    }
                }
            }
        }
        m += 1;
    }
    front
}

/// The bargains match every set of what is left, where they match those of the others, and those
/// with each candidate at the facility added.
proof fn lemma_front_complete(
    candidates: Seq<ProductionCandidate>,
    left: Seq<usize>,
    facility: GridPosition,
    base: Seq<Bargain>,
    front: Seq<Bargain>,
    budget: u32,
    s: Seq<usize>,
)
    requires
        is_front(candidates, without(candidates, left, facility), budget as int, base),
        is_no_worse(base, front),
        forall|k: int|
            0 <= k < left.len() && candidates[(#[trigger] left[k]) as int].facility_position
                == facility ==> takes_up(
                front,
                base,
                candidates[left[k] as int],
                budget,
                base.len() as int,
            ),
        is_selection_of(candidates, left, s, budget as int),
    ensures
        is_matched(front, total_cost(candidates, s), total_score(candidates, s)),
{
    let others = without(candidates, left, facility);
    if exists|k: int|
        0 <= k < s.len() && candidates[(#[trigger] s[k]) as int].facility_position == facility {
        let k = choose|k: int|
            0 <= k < s.len() && candidates[(#[trigger] s[k]) as int].facility_position == facility;
        let x = candidates[s[k] as int];
        lemma_take_out(candidates, left, s, budget as int, k);
        let t = s.remove(k);
        assert(is_selection_of(candidates, others, t, budget as int));
        assert(is_matched(base, total_cost(candidates, t), total_score(candidates, t)));
        let i = choose|i: int|
            0 <= i < base.len() && (#[trigger] base[i]).cost <= total_cost(candidates, t)
                && base[i].score >= total_score(candidates, t);
        assert(left.contains(s[k]));
        let at = choose|at: int| 0 <= at < left.len() && left[at] == s[k];
        assert(takes_up(front, base, candidates[left[at] as int], budget, base.len() as int));
        assert(base[i].cost + x.cost <= budget);
        assert(is_matched(front, base[i].cost + x.cost, base[i].score + x.score));
        let j = choose|j: int|
            0 <= j < front.len() && (#[trigger] front[j]).cost <= base[i].cost + x.cost
                && front[j].score >= base[i].score + x.score;
        assert(front[j].cost <= total_cost(candidates, s));
    } else {
        lemma_leaves_alone(candidates, left, s, budget as int, facility);
        assert(is_matched(base, total_cost(candidates, s), total_score(candidates, s)));
    }
}

proof fn lemma_still_sound(
    candidates: Seq<ProductionCandidate>,
    left: Seq<usize>,
    facility: GridPosition,
    budget: u32,
    base: Seq<Bargain>,
)
    requires
        is_sound(candidates, without(candidates, left, facility), budget, base),
    ensures
        is_sound(candidates, left, budget, base),
{
    let others = without(candidates, left, facility);
    lemma_elsewhere(candidates, left, facility, left.len() as int);
    assert forall|i: int| 0 <= i < base.len() implies is_struck(
        candidates,
        left,
        budget as int,
        #[trigger] base[i],
    ) && base[i].cost <= budget && base[i].score <= 0xffff_ffff * left.len() by {
        assert(is_struck(candidates, others, budget as int, base[i]));
        let s = choose|s: Seq<usize>| #[trigger]
            is_selection_of(candidates, others, s, budget as int) && total_cost(candidates, s)
                == base[i].cost && total_score(candidates, s) == base[i].score;
        assert forall|j: int| 0 <= j < s.len() implies left.contains(#[trigger] s[j]) by {
            assert(others.contains(s[j]));
        }
        assert(is_selection_of(candidates, left, s, budget as int));
    }
}

/// What can be had at all of what is left: the bargains that no other bargain beats.
fn find_front(candidates: &Vec<ProductionCandidate>, left: &Vec<usize>, budget: u32) -> (r: Vec<
    Bargain,
>)
    requires
        forall|i: int| 0 <= i < left.len() ==> #[trigger] left[i] < candidates.len(),
    ensures
        is_front(candidates@, left@, budget as int, r@),
        is_sound(candidates@, left@, budget, r@),
    decreases left.len(),
{
    let ghost c = candidates@;
    if left.len() == 0 {
        let mut r: Vec<Bargain> = Vec::new();
        r.push(Bargain { cost: 0, score: 0 });
        proof {
            let none = Seq::<usize>::empty();
            assert(is_selection_of(c, left@, none, budget as int));
            assert(is_struck(c, left@, budget as int, r@[0]));
            assert forall|s: Seq<usize>| #[trigger]
                is_selection_of(c, left@, s, budget as int) implies is_matched(
                r@,
                total_cost(c, s),
                total_score(c, s),
            ) by {
                if s.len() > 0 {
                    assert(left@.contains(s[0]));
                }
                assert(r@[0].cost <= total_cost(c, s));
            }
        }
        return r;
    }
    let facility = candidates[left[0]].facility_position;
    let others = find_elsewhere(candidates, left, facility);
    proof {
        lemma_elsewhere(c, left@, facility, left.len() as int);
    }
    let base = find_front(candidates, &others, budget);
    let mut front: Vec<Bargain> = base.clone();
    assert(front@ =~= base@);
    proof {
        lemma_still_sound(c, left@, facility, budget, base@);
    }
    let mut n: usize = 0;
    while n < left.len()
        invariant
            n <= left.len(),
            c == candidates@,
            others.len() < left.len(),
            others@ == without(c, left@, facility),
            forall|i: int| 0 <= i < left.len() ==> #[trigger] left[i] < candidates.len(),
            is_sound(c, others@, budget, base@),
            is_sound(c, left@, budget, front@),
            is_no_worse(base@, front@),
            forall|k: int|
                0 <= k < n && c[(#[trigger] left[k]) as int].facility_position == facility
                    ==> takes_up(front@, base@, c[left[k] as int], budget, base.len() as int),
        decreases left.len() - n,
    {
        let x: usize = left[n];
        if candidates[x].facility_position == facility {
            let ghost before = front@;
            assert(left@.contains(left@[n as int]));
            front = add_candidate(candidates, left, &others, &base, front, x, budget);
            proof {
                assert forall|k: int|
                    0 <= k < n + 1 && c[(#[trigger] left[k]) as int].facility_position
                        == facility implies takes_up(
                    front@,
                    base@,
                    c[left[k] as int],
                    budget,
                    base.len() as int,
                ) by {
                    if k < n {
                        let y = c[left[k] as int];
                        assert(takes_up(before, base@, y, budget, base.len() as int));
                        assert forall|i: int|
                            0 <= i < base.len() && (#[trigger] base[i]).cost + y.cost
                                <= budget implies is_matched(
                            front@,
                            base[i].cost + y.cost,
                            base[i].score + y.score,
                        ) by {
                            assert(is_matched(
                                before,
                                base[i].cost + y.cost,
                                base[i].score + y.score,
                            ));
                        }
                    }
                }
                assert forall|cost: int, score: int| #[trigger]
                    is_matched(base@, cost, score) implies is_matched(front@, cost, score) by {
                    assert(is_matched(before, cost, score));
                }
            }
        }
        n += 1;
    }
    proof {
        assert forall|s: Seq<usize>| #[trigger]
            is_selection_of(c, left@, s, budget as int) implies is_matched(
            front@,
            total_cost(c, s),
            total_score(c, s),
        ) by {
            lemma_front_complete(c, left@, facility, base@, front@, budget, s);
        }
    }
    front
}

/// What the best sets of what is left are worth.
pub open spec fn is_greatest(
    candidates: Seq<ProductionCandidate>,
    left: Seq<usize>,
    budget: int,
    v: int,
) -> bool {
    &&& exists|s: Seq<usize>| #[trigger]
        is_selection_of(candidates, left, s, budget) && total_score(candidates, s) == v
    &&& forall|s: Seq<usize>| #[trigger]
        is_selection_of(candidates, left, s, budget) ==> total_score(candidates, s) <= v
}

fn find_greatest(candidates: &Vec<ProductionCandidate>, left: &Vec<usize>, budget: u32) -> (r: u128)
    requires
        forall|i: int| 0 <= i < left.len() ==> #[trigger] left[i] < candidates.len(),
    ensures
        is_greatest(candidates@, left@, budget as int, r as int),
        r <= 0xffff_ffff * left.len(),
{
    let front = find_front(candidates, left, budget);
    let ghost c = candidates@;
    proof {
        let none = Seq::<usize>::empty();
        assert(is_selection_of(c, left@, none, budget as int));
        assert(is_matched(front@, total_cost(c, none), total_score(c, none)));
    }
    let mut best: u128 = front[0].score;
    let mut at: usize = 0;
    let mut n: usize = 1;
    while n < front.len()
        invariant
            1 <= n <= front.len(),
            at < n,
            best == front[at as int].score,
            forall|i: int| 0 <= i < n ==> (#[trigger] front[i]).score <= best,
        decreases front.len() - n,
    {
        if front[n].score > best {
            best = front[n].score;
            at = n;
        }
        n += 1;
    }
    proof {
        assert(is_struck(c, left@, budget as int, front@[at as int]));
        assert forall|s: Seq<usize>| #[trigger]
            is_selection_of(c, left@, s, budget as int) implies total_score(c, s) <= best by {
            assert(is_matched(front@, total_cost(c, s), total_score(c, s)));
        }
    }
    best
}

/// One of the best sets has the candidate exactly if the money pays for it and, with it, the best
/// of what is left elsewhere comes to as much as the best of all.
proof fn lemma_in_some_best(
    candidates: Seq<ProductionCandidate>,
    left: Seq<usize>,
    budget: int,
    x: usize,
    v: int,
)
    requires
        left.contains(x),
        is_greatest(candidates, left, budget, v),
    ensures
        is_in_some_best(candidates, left, budget, x) <==> exists|w: int| #[trigger]
            is_greatest(
                candidates,
                without(candidates, left, candidates[x as int].facility_position),
                budget - candidates[x as int].cost,
                w,
            ) && candidates[x as int].score + w == v,
{
    let c = candidates[x as int];
    let rest = without(candidates, left, c.facility_position);
    if is_in_some_best(candidates, left, budget, x) {
        let s = choose|s: Seq<usize>| #[trigger]
            is_best_of(candidates, left, s, budget) && s.contains(x);
        let k = choose|k: int| 0 <= k < s.len() && s[k] == x;
        lemma_take_out(candidates, left, s, budget, k);
        let w = total_score(candidates, s.remove(k));
        let best = choose|t: Seq<usize>| #[trigger]
            is_selection_of(candidates, left, t, budget) && total_score(candidates, t) == v;
        assert(total_score(candidates, s) == v);
        assert forall|t: Seq<usize>| #[trigger]
            is_selection_of(candidates, rest, t, budget - c.cost) implies total_score(candidates, t)
            <= w by {
            lemma_put_before(candidates, left, x, t, budget);
            assert(is_selection_of(candidates, left, seq![x] + t, budget));
        }
        assert(is_greatest(candidates, rest, budget - c.cost, w));
    }
    if exists|w: int| #[trigger]
        is_greatest(candidates, rest, budget - c.cost, w) && c.score + w == v {
        let w = choose|w: int| #[trigger]
            is_greatest(candidates, rest, budget - c.cost, w) && c.score + w == v;
        let t = choose|t: Seq<usize>| #[trigger]
            is_selection_of(candidates, rest, t, budget - c.cost) && total_score(candidates, t) == w;
        lemma_put_before(candidates, left, x, t, budget);
        let s = seq![x] + t;
        assert(s[0] == x);
        assert(s.contains(x));
        assert(is_best_of(candidates, left, s, budget));
    }
}

/// Where a candidate is not taken, the best of the others are as good as the best of all.
proof fn lemma_not_taken(
    candidates: Seq<ProductionCandidate>,
    left: Seq<usize>,
    budget: int,
    s: Seq<usize>,
)
    requires
        left.len() > 0,
        candidates[left[0] as int].score == 0 || !is_in_some_best(
            candidates,
            left,
            budget,
            left[0],
        ),
        exists|v: int| is_greatest(candidates, left, budget, v),
        is_best_of(candidates, left.drop_first(), s, budget),
    ensures
        is_best_of(candidates, left, s, budget),
{
    let x = left[0];
    let rest = left.drop_first();
    assert forall|i: int| 0 <= i < s.len() implies left.contains(#[trigger] s[i]) by {
        assert(rest.contains(s[i]));
        let j = choose|j: int| 0 <= j < rest.len() && rest[j] == s[i];
        assert(left[j + 1] == s[i]);
    }
    assert(is_selection_of(candidates, left, s, budget));
    let v = choose|v: int| is_greatest(candidates, left, budget, v);
    let t = choose|t: Seq<usize>| #[trigger]
        is_selection_of(candidates, left, t, budget) && total_score(candidates, t) == v;
    assert(is_best_of(candidates, left, t, budget));
    let u = if t.contains(x) {
        t.remove(choose|k: int| 0 <= k < t.len() && t[k] == x)
    } else {
        t
    };
    if t.contains(x) {
        let k = choose|k: int| 0 <= k < t.len() && t[k] == x;
        lemma_one_less(candidates, t, k);
        assert(total_score(candidates, u) == v);
        assert forall|i: int| 0 <= i < u.len() implies rest.contains(#[trigger] u[i]) by {
            assert(t.contains(u[i]));
            let m = choose|m: int| 0 <= m < t.len() && t[m] == u[i];
            assert(left.contains(t[m]));
            let at = choose|at: int| 0 <= at < left.len() && left[at] == u[i];
            assert(candidates[u[i] as int].facility_position
                != candidates[x as int].facility_position);
            assert(at != 0);
            assert(rest[at - 1] == u[i]);
        }
    } else {
        assert forall|i: int| 0 <= i < u.len() implies rest.contains(#[trigger] u[i]) by {
            assert(t.contains(u[i]));
            assert(left.contains(t[i]));
            let at = choose|at: int| 0 <= at < left.len() && left[at] == u[i];
            assert(at != 0);
            assert(rest[at - 1] == u[i]);
        }
    }
    assert(is_selection_of(candidates, rest, u, budget));
}

/// Finds the best set of what is left.
fn find_best_set(candidates: &Vec<ProductionCandidate>, left: &Vec<usize>, budget: u32) -> (r: Vec<
    usize,
>)
    requires
        forall|i: int| 0 <= i < left.len() ==> #[trigger] left[i] < candidates.len(),
    ensures
        r@ == best_set(candidates@, left@, budget as int),
    decreases left.len(),
{
    let ghost c = candidates@;
    if left.len() == 0 {
        return Vec::new();
    }
    let first: usize = left[0];
    let chosen = candidates[first];
    let greatest: u128 = find_greatest(candidates, left, budget);
    let others = find_elsewhere(candidates, left, chosen.facility_position);
    proof {
        lemma_elsewhere(c, left@, chosen.facility_position, left.len() as int);
        assert(left@.contains(left@[0]));
        lemma_in_some_best(c, left@, budget as int, first, greatest as int);
    }
    if chosen.score > 0 && chosen.cost <= budget {
        let money: u32 = budget - chosen.cost;
        let rest: u128 = find_greatest(candidates, &others, money);
        if chosen.score as u128 + rest == greatest {
            assert(is_greatest(c, others@, budget as int - chosen.cost, rest as int));
            assert(is_in_some_best(c, left@, budget as int, first));
            let more = find_best_set(candidates, &others, money);
            let mut r: Vec<usize> = Vec::new();
            r.push(first);
            let mut n: usize = 0;
            while n < more.len()
                invariant
                    n <= more.len(),
                    r@ == seq![first] + more@.take(n as int),
                decreases more.len() - n,
            {
                r.push(more[n]);
                assert(more@.take(n + 1) =~= more@.take(n as int).push(more@[n as int]));
                assert(r@ =~= seq![first] + more@.take(n + 1));
                n += 1;
            }
            assert(more@.take(n as int) =~= more@);
            return r;
        }
        proof {
            if is_in_some_best(c, left@, budget as int, first) {
                let w = choose|w: int| #[trigger]
                    is_greatest(c, others@, budget as int - chosen.cost, w) && chosen.score + w
                        == greatest;
                let t = choose|t: Seq<usize>| #[trigger]
                    is_selection_of(c, others@, t, money as int) && total_score(c, t) == w;
                let u = choose|u: Seq<usize>| #[trigger]
                    is_selection_of(c, others@, u, money as int) && total_score(c, u) == rest;
                assert(w == rest);
            }
        }
    } else if chosen.score > 0 {
        proof {
            if is_in_some_best(c, left@, budget as int, first) {
                let w = choose|w: int| #[trigger]
                    is_greatest(c, others@, budget as int - chosen.cost, w) && chosen.score + w
                        == greatest;
                let t = choose|t: Seq<usize>| #[trigger]
                    is_selection_of(c, others@, t, budget as int - chosen.cost) && total_score(c, t)
                        == w;
                lemma_cost_counts(c, t);
            }
        }
    }
    let mut later: Vec<usize> = Vec::new();
    let mut n: usize = 1;
    while n < left.len()
        invariant
            1 <= n <= left.len(),
            forall|i: int| 0 <= i < left.len() ==> #[trigger] left[i] < candidates.len(),
            later@ == left@.subrange(1, n as int),
        decreases left.len() - n,
    {
        later.push(left[n]);
        assert(left@.subrange(1, n + 1) =~= left@.subrange(1, n as int).push(left@[n as int]));
        n += 1;
    }
    proof {
        assert(later@ =~= left@.drop_first());
        assert forall|i: int| 0 <= i < later.len() implies #[trigger] later[i] < candidates.len() by {
            assert(later[i] == left[i + 1]);
        }
    }
    find_best_set(candidates, &later, budget)
}

proof fn lemma_cost_counts(candidates: Seq<ProductionCandidate>, s: Seq<usize>)
    ensures
        total_cost(candidates, s) >= 0,
    decreases s.len(),
{
    if s.len() > 0 {
        lemma_cost_counts(candidates, s.drop_last());
    }
}

/// The set of candidates that is worth most for the budget. Of several such sets it is the one
/// that comes first: the candidates are looked at in their order, and each is taken if it is worth
/// anything and a best set has it.
pub fn best_production_set(
    registry: &MasterDataRegistry,
    candidates: &Vec<ProductionCandidate>,
    budget: u32,
) -> (r: Vec<usize>)
    ensures
        r@ == best_set(candidates@, ranked(*registry, candidates@), budget as int),
        is_best_selection(candidates@, r@, budget),
{
    let ghost c = candidates@;
    let mut keys: Vec<Vec<u64>> = Vec::new();
    let mut n: usize = 0;
    while n < candidates.len()
        invariant
            n <= candidates.len(),
            keys.len() == n,
            forall|i: int|
                0 <= i < n ==> (#[trigger] keys[i])@ == candidate_key(*registry, candidates[i]),
        decreases candidates.len() - n,
    {
        keys.push(key_of(registry, &candidates[n]));
        n += 1;
    }
    assert(key_views(keys@) =~= candidate_keys(*registry, c));
    let order = stable_order(&keys);
    assert(order@ =~= ranked(*registry, c));
    proof {
        lemma_best_set_of_all(*registry, c, budget);
    }
    find_best_set(candidates, &order, budget)
}

/// Some set of what is left is worth as much as any.
proof fn lemma_some_best(
    candidates: Seq<ProductionCandidate>,
    left: Seq<usize>,
    budget: int,
)
    requires
        0 <= budget,
    ensures
        exists|v: int| is_greatest(candidates, left, budget, v),
    decreases left.len(),
{
    if left.len() == 0 {
        let none = Seq::<usize>::empty();
        assert(is_selection_of(candidates, left, none, budget));
        assert forall|s: Seq<usize>| #[trigger]
            is_selection_of(candidates, left, s, budget) implies total_score(candidates, s) <= 0 by {
            if s.len() > 0 {
                assert(left.contains(s[0]));
            }
        }
        assert(is_greatest(candidates, left, budget, 0));
    } else {
        let x = left[0];
        let c = candidates[x as int];
        let rest = left.drop_first();
        let others = without(candidates, left, c.facility_position);
        lemma_elsewhere(candidates, left, c.facility_position, left.len() as int);
        lemma_some_best(candidates, rest, budget);
        let v = choose|v: int| is_greatest(candidates, rest, budget, v);
        let s = choose|s: Seq<usize>| #[trigger]
            is_selection_of(candidates, rest, s, budget) && total_score(candidates, s) == v;
        assert forall|i: int| 0 <= i < s.len() implies left.contains(#[trigger] s[i]) by {
            assert(rest.contains(s[i]));
            let j = choose|j: int| 0 <= j < rest.len() && rest[j] == s[i];
            assert(left[j + 1] == s[i]);
        }
        assert(is_selection_of(candidates, left, s, budget));
        assert forall|t: Seq<usize>|
            is_selection_of(candidates, left, t, budget) && !t.contains(x) implies #[trigger]
        total_score(candidates, t) <= v by {
            assert forall|i: int| 0 <= i < t.len() implies rest.contains(#[trigger] t[i]) by {
                assert(t.contains(t[i]));
                assert(left.contains(t[i]));
                let at = choose|at: int| 0 <= at < left.len() && left[at] == t[i];
                assert(rest[at - 1] == t[i]);
            }
            assert(is_selection_of(candidates, rest, t, budget));
        }
        if c.cost <= budget {
            let money = budget - c.cost;
            lemma_some_best(candidates, others, money);
            let w = choose|w: int| is_greatest(candidates, others, money, w);
            let u = choose|u: Seq<usize>| #[trigger]
                is_selection_of(candidates, others, u, budget - c.cost) && total_score(candidates, u)
                    == w;
            assert(left.contains(left[0]));
            lemma_put_before(candidates, left, x, u, budget);
            assert(is_selection_of(candidates, left, seq![x] + u, budget));
            let most = if c.score + w > v {
                c.score + w
            } else {
                v
            };
            assert forall|t: Seq<usize>| #[trigger]
                is_selection_of(candidates, left, t, budget) implies total_score(candidates, t)
                <= most by {
                if t.contains(x) {
                    let k = choose|k: int| 0 <= k < t.len() && t[k] == x;
                    lemma_take_out(candidates, left, t, budget, k);
                }
            }
            assert(is_greatest(candidates, left, budget, most));
        } else {
            assert forall|t: Seq<usize>| #[trigger]
                is_selection_of(candidates, left, t, budget) implies total_score(candidates, t)
                <= v by {
                if t.contains(x) {
                    let k = choose|k: int| 0 <= k < t.len() && t[k] == x;
                    lemma_take_out(candidates, left, t, budget, k);
                    lemma_cost_counts(candidates, t.remove(k));
                }
            }
            assert(is_greatest(candidates, left, budget, v));
        }
    }
}

/// The best set of what is left is one of the best, and holds only what is worth something.
proof fn lemma_best_set(candidates: Seq<ProductionCandidate>, left: Seq<usize>, budget: int)
    requires
        0 <= budget,
    ensures
        is_best_of(candidates, left, best_set(candidates, left, budget), budget),
        forall|i: int|
            0 <= i < best_set(candidates, left, budget).len() ==> candidates[(#[trigger] best_set(
                candidates,
                left,
                budget,
            )[i]) as int].score > 0,
    decreases left.len(),
{
    let set = best_set(candidates, left, budget);
    if left.len() == 0 {
        assert forall|t: Seq<usize>| #[trigger]
            is_selection_of(candidates, left, t, budget) implies total_score(candidates, t)
            <= total_score(candidates, set) by {
            if t.len() > 0 {
                assert(left.contains(t[0]));
            }
        }
    } else {
        let x = left[0];
        let c = candidates[x as int];
        let others = without(candidates, left, c.facility_position);
        lemma_elsewhere(candidates, left, c.facility_position, left.len() as int);
        lemma_some_best(candidates, left, budget);
        assert(left.contains(left[0]));
        if c.score > 0 && is_in_some_best(candidates, left, budget, x) {
            let s = choose|s: Seq<usize>| #[trigger]
                is_best_of(candidates, left, s, budget) && s.contains(x);
            let k = choose|k: int| 0 <= k < s.len() && s[k] == x;
            lemma_take_out(candidates, left, s, budget, k);
            lemma_cost_counts(candidates, s.remove(k));
            lemma_best_set(candidates, others, budget - c.cost);
            let more = best_set(candidates, others, budget - c.cost);
            lemma_put_before(candidates, left, x, more, budget);
            assert(total_score(candidates, s.remove(k)) <= total_score(candidates, more));
            assert(set == seq![x] + more);
            assert forall|i: int| 0 <= i < set.len() implies candidates[(
            #[trigger] set[i]) as int].score > 0 by {
                if i > 0 {
                    assert(set[i] == more[i - 1]);
                }
            }
        } else {
            lemma_best_set(candidates, left.drop_first(), budget);
            lemma_not_taken(candidates, left, budget, set);
        }
    }
}

/// The best set of all candidates can be built together, none is worth more, and it holds only
/// what is worth something.
pub proof fn lemma_best_set_of_all(
    registry: MasterDataRegistry,
    candidates: Seq<ProductionCandidate>,
    budget: u32,
)
    requires
        candidates.len() <= usize::MAX,
    ensures
        ({
            let set = best_set(candidates, ranked(registry, candidates), budget as int);
            &&& is_best_selection(candidates, set, budget)
            &&& forall|i: int|
                0 <= i < set.len() ==> candidates[(#[trigger] set[i]) as int].score > 0
        }),
{
    let left = ranked(registry, candidates);
    let set = best_set(candidates, left, budget as int);
    let sorted = sort_order(candidate_keys(registry, candidates));
    lemma_sort_prefix(candidate_keys(registry, candidates), candidates.len() as int);
    lemma_best_set(candidates, left, budget as int);
    assert forall|i: int| 0 <= i < set.len() implies (#[trigger] set[i]) < candidates.len() by {
        assert(left.contains(set[i]));
        let k = choose|k: int| 0 <= k < left.len() && left[k] == set[i];
        assert(0 <= sorted[k] < candidates.len());
    }
    assert forall|s: Seq<usize>| #[trigger]
        is_selection(candidates, s, budget) implies total_score(candidates, s) <= total_score(
        candidates,
        set,
    ) by {
        assert forall|i: int| 0 <= i < s.len() implies left.contains(#[trigger] s[i]) by {
            assert(sorted.contains(s[i] as int));
            let k = choose|k: int| 0 <= k < sorted.len() && sorted[k] == s[i] as int;
            assert(left[k] == s[i]);
        }
        assert(is_selection_of(candidates, left, s, budget as int));
    }
}

/// The first of a set can be built together as well.
pub proof fn lemma_prefix_is_selection(
    candidates: Seq<ProductionCandidate>,
    s: Seq<usize>,
    budget: u32,
    n: int,
)
    requires
        is_selection(candidates, s, budget),
        0 <= n <= s.len(),
    ensures
        is_selection(candidates, s.take(n), budget),
    decreases s.len() - n,
{
    if n < s.len() {
        lemma_prefix_is_selection(candidates, s, budget, n + 1);
        assert(s.take(n + 1).drop_last() =~= s.take(n));
        let t = s.take(n);
        assert forall|i: int| 0 <= i < t.len() implies (#[trigger] t[i]) < candidates.len() by {
            assert(t[i] == s[i]);
        }
        assert forall|i: int, j: int| 0 <= i < j < t.len() implies candidates[(
        #[trigger] t[i]) as int].facility_position != candidates[(
        #[trigger] t[j]) as int].facility_position by {
            assert(t[i] == s[i] && t[j] == s[j]);
        }
    } else {
        assert(s.take(n) =~= s);
    }
}

/// The first of a set cost no more than all of it.
pub proof fn lemma_prefix_costs_less(candidates: Seq<ProductionCandidate>, s: Seq<usize>, n: int)
    requires
        0 <= n <= s.len(),
    ensures
        total_cost(candidates, s.take(n)) <= total_cost(candidates, s),
    decreases s.len() - n,
{
    if n < s.len() {
        lemma_prefix_costs_less(candidates, s, n + 1);
        assert(s.take(n + 1).drop_last() =~= s.take(n));
    } else {
        assert(s.take(n) =~= s);
    }
}

/// Once a best set is built, no other candidate that is worth anything has both a free facility
/// and the money for it.
pub proof fn law_best_set_leaves_nothing(
    candidates: Seq<ProductionCandidate>,
    s: Seq<usize>,
    budget: u32,
    x: usize,
)
    requires
        is_best_selection(candidates, s, budget),
        x < candidates.len(),
        candidates[x as int].score > 0,
        forall|i: int|
            0 <= i < s.len() ==> candidates[(#[trigger] s[i]) as int].facility_position
                != candidates[x as int].facility_position,
    ensures
        candidates[x as int].cost + total_cost(candidates, s) > budget,
{
    let t = s.push(x);
    assert(t.drop_last() =~= s);
    if candidates[x as int].cost + total_cost(candidates, s) <= budget {
        assert forall|i: int, j: int| 0 <= i < j < t.len() implies candidates[(
        #[trigger] t[i]) as int].facility_position != candidates[(
        #[trigger] t[j]) as int].facility_position by {
            assert(t[i] == s[i]);
            if j < s.len() {
                assert(t[j] == s[j]);
            }
        }
        assert(is_selection(candidates, t, budget));
    }
}

/// What is left of a best set once one of its candidates is built is a best set of what can still
/// be built: building one unit after the other loses nothing, as long as nothing is weighed anew.
pub proof fn law_rest_of_best_set_is_best(
    candidates: Seq<ProductionCandidate>,
    left: Seq<usize>,
    s: Seq<usize>,
    budget: int,
    k: int,
)
    requires
        is_best_of(candidates, left, s, budget),
        0 <= k < s.len(),
    ensures
        is_best_of(
            candidates,
            without(candidates, left, candidates[s[k] as int].facility_position),
            s.remove(k),
            budget - candidates[s[k] as int].cost,
        ),
{
    let c = candidates[s[k] as int];
    let rest = without(candidates, left, c.facility_position);
    lemma_take_out(candidates, left, s, budget, k);
    assert forall|t: Seq<usize>| #[trigger]
        is_selection_of(candidates, rest, t, budget - c.cost) implies total_score(candidates, t)
        <= total_score(candidates, s.remove(k)) by {
        assert(left.contains(s[k]));
        lemma_put_before(candidates, left, s[k], t, budget);
        assert(is_selection_of(candidates, left, seq![s[k]] + t, budget));
    }
}

/// One more candidate adds its price and its worth to a set, and nothing costs nothing and is worth
/// nothing.
pub proof fn law_sets_add_up(candidates: Seq<ProductionCandidate>, s: Seq<usize>, x: usize)
    ensures
        total_score(candidates, Seq::empty()) == 0,
        total_cost(candidates, Seq::empty()) == 0,
        total_score(candidates, s.push(x)) == total_score(candidates, s)
            + candidates[x as int].score,
        total_cost(candidates, s.push(x)) == total_cost(candidates, s) + candidates[x as int].cost,
{
    assert(s.push(x).drop_last() =~= s);
}

/// Candidates can be built together exactly if each is listed, no two need the same facility, and
/// the budget pays for all. They are a best set exactly if none that can be built together are
/// worth more.
pub proof fn law_best_set_is_affordable_and_worth_most(
    candidates: Seq<ProductionCandidate>,
    s: Seq<usize>,
    other: Seq<usize>,
    budget: u32,
)
    ensures
        is_selection(candidates, s, budget) <==> {
            &&& total_cost(candidates, s) <= budget
            &&& forall|i: int| 0 <= i < s.len() ==> #[trigger] s[i] < candidates.len()
            &&& forall|i: int, j: int|
                0 <= i < s.len() && 0 <= j < s.len() && i != j ==> candidates[(
                #[trigger] s[i]) as int].facility_position != candidates[(
                #[trigger] s[j]) as int].facility_position
        },
        is_best_selection(candidates, s, budget) ==> is_selection(candidates, s, budget),
        is_best_selection(candidates, s, budget) && is_selection(candidates, other, budget)
            ==> total_score(candidates, other) <= total_score(candidates, s),
{
    if is_selection(candidates, s, budget) {
        assert forall|i: int, j: int|
            0 <= i < s.len() && 0 <= j < s.len() && i != j implies candidates[(
        #[trigger] s[i]) as int].facility_position != candidates[(
        #[trigger] s[j]) as int].facility_position by {
            if j < i {
                assert(candidates[s[j] as int].facility_position
                    != candidates[s[i] as int].facility_position);
            }
        }
    }
}

/// Of several best sets the one with the earlier candidates is built: the first that is left, if
/// it is worth anything, is built exactly if a best set of what is left has it.
pub proof fn law_earlier_candidates_are_preferred(
    candidates: Seq<ProductionCandidate>,
    left: Seq<usize>,
    s: Seq<usize>,
    budget: int,
)
    requires
        left.len() > 0,
        candidates[left[0] as int].score > 0,
        is_best_of(candidates, left, s, budget),
        s.contains(left[0]),
    ensures
        best_set(candidates, left, budget).len() > 0,
        best_set(candidates, left, budget)[0] == left[0],
{
    assert(is_in_some_best(candidates, left, budget, left[0]));
}

} // verus!
