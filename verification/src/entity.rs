//! Entities, named by the bits that the entity store gives them.
use vstd::prelude::*;

verus! {

/// An entity of the game world. Two entities are the same exactly if their bits are, and they are
/// ordered by their bits.
#[derive(Clone, Copy, Debug, PartialEq, Eq, Hash, PartialOrd, Ord, Structural)]
pub struct Entity {
    pub bits: u64,
}

/// The bits of `bevy_ecs::entity::Entity::from_raw`, by `bevy_ecs::entity::Entity::to_bits`: the
/// index in the low half, and the first generation, which is one, in the high half.
#[verifier::external_body]
fn first_generation_bits(index: u32) -> (bits: u64)
    ensures
        bits == 0x1_0000_0000 + index,
{
    bevy_ecs::entity::Entity::from_raw(index).to_bits()
}

/// The bits of `bevy_ecs::entity::Entity::PLACEHOLDER`: the greatest index in its first
/// generation.
#[verifier::external_body]
fn placeholder_bits() -> (bits: u64)
    ensures
        bits == 0x1_FFFF_FFFF,
{
    bevy_ecs::entity::Entity::PLACEHOLDER.to_bits()
}

impl Entity {
    /// The entity with the given index, in its first generation.
    pub fn from_raw(index: u32) -> (r: Entity)
        ensures
            r.bits == 0x1_0000_0000 + index,
    {
        Entity { bits: first_generation_bits(index) }
    }

    /// The entity that stands for a unit that does not exist yet.
    pub fn placeholder() -> (r: Entity)
        ensures
            r.bits == 0x1_FFFF_FFFF,
    {
        Entity { bits: placeholder_bits() }
    }

    /// The bits by which the entity is ordered and found again.
    pub fn to_bits(self) -> (r: u64)
        ensures
            r == self.bits,
    {
        self.bits
    }
}

/// The entities stand in strictly ascending order of their bits; so none occurs twice.
pub open spec fn ascending(s: Seq<Entity>) -> bool {
    forall|i: int, j: int| 0 <= i < j < s.len() ==> (#[trigger] s[i]).bits < (#[trigger] s[j]).bits
}

/// The place among the first `n` entities of an ascending list at which `e` stands or belongs.
pub open spec fn slot(s: Seq<Entity>, e: Entity, n: int) -> int
    decreases n,
{
    if n <= 0 {
        0
    } else if s[n - 1].bits >= e.bits {
        slot(s, e, n - 1)
    } else {
        n
    }
}

/// An ascending list of entities with `e` added, unless it is there already.
pub open spec fn with_entity(s: Seq<Entity>, e: Entity) -> Seq<Entity> {
    let p = slot(s, e, s.len() as int);
    if p < s.len() && s[p] == e {
        s
    } else {
        s.insert(p, e)
    }
}

/// The entities among the first `n` of `s`, ascending and each once.
pub open spec fn sorted_prefix(s: Seq<Entity>, n: int) -> Seq<Entity>
    decreases n,
{
    if n <= 0 {
        Seq::empty()
    } else {
        with_entity(sorted_prefix(s, n - 1), s[n - 1])
    }
}

/// The entities of `s`, ascending and each once.
pub open spec fn sorted_entities(s: Seq<Entity>) -> Seq<Entity> {
    sorted_prefix(s, s.len() as int)
}

pub proof fn lemma_slot(s: Seq<Entity>, e: Entity, n: int)
    requires
        0 <= n <= s.len(),
    ensures
        0 <= slot(s, e, n) <= n,
        forall|i: int| slot(s, e, n) <= i < n ==> (#[trigger] s[i]).bits >= e.bits,
        slot(s, e, n) > 0 ==> s[slot(s, e, n) - 1].bits < e.bits,
    decreases n,
{
    if n > 0 && s[n - 1].bits >= e.bits {
        lemma_slot(s, e, n - 1);
    }
}

/// Adding an entity to an ascending list keeps it ascending and adds nothing else.
pub proof fn lemma_with_entity(s: Seq<Entity>, e: Entity)
    requires
        ascending(s),
    ensures
        ascending(with_entity(s, e)),
        forall|x: Entity| #[trigger] with_entity(s, e).contains(x) <==> s.contains(x) || x == e,
{
    let n = s.len() as int;
    let p = slot(s, e, n);
    lemma_slot(s, e, n);
    let t = with_entity(s, e);
    if p < n && s[p] == e {
        assert(s.contains(e));
    } else {
        assert(t == s.insert(p, e));
        assert(p < n ==> s[p].bits > e.bits);
        assert forall|i: int, j: int| 0 <= i < j < t.len() implies (#[trigger] t[i]).bits < (
        #[trigger] t[j]).bits by {
            let a = if i < p { i } else { i - 1 };
            let b = if j < p { j } else { j - 1 };
            if i == p {
                assert(t[j] == s[j - 1]);
                assert(p == j - 1 || s[p].bits < s[j - 1].bits);
            } else if j == p {
                assert(t[i] == s[i]);
                assert(i == p - 1 || s[i].bits < s[p - 1].bits);
            } else {
                assert(t[i] == s[a] && t[j] == s[b]);
            }
        }
        assert forall|x: Entity| #[trigger] t.contains(x) <==> s.contains(x) || x == e by {
            if t.contains(x) {
                let k = choose|k: int| 0 <= k < t.len() && t[k] == x;
                if k < p {
                    assert(s[k] == x);
                } else if k > p {
                    assert(s[k - 1] == x);
                }
            }
            if s.contains(x) {
                let k = choose|k: int| 0 <= k < s.len() && s[k] == x;
                if k < p {
                    assert(t[k] == x);
                } else {
                    assert(t[k + 1] == x);
                }
            }
            assert(t[p] == e);
        }
    }
}

pub proof fn lemma_sorted_prefix(s: Seq<Entity>, n: int)
    requires
        0 <= n <= s.len(),
    ensures
        ascending(sorted_prefix(s, n)),
        forall|x: Entity|
            #[trigger] sorted_prefix(s, n).contains(x) <==> exists|i: int|
                0 <= i < n && #[trigger] s[i] == x,
    decreases n,
{
    if n > 0 {
        lemma_sorted_prefix(s, n - 1);
        lemma_with_entity(sorted_prefix(s, n - 1), s[n - 1]);
        assert forall|x: Entity|
            #[trigger] sorted_prefix(s, n).contains(x) <==> exists|i: int|
                0 <= i < n && #[trigger] s[i] == x by {
            if exists|i: int| 0 <= i < n && #[trigger] s[i] == x {
                let i = choose|i: int| 0 <= i < n && #[trigger] s[i] == x;
                if i < n - 1 {
                    assert(sorted_prefix(s, n - 1).contains(x));
                }
            }
            if sorted_prefix(s, n).contains(x) && x != s[n - 1] {
                assert(sorted_prefix(s, n - 1).contains(x));
            }
        }
    }
}

/// A sorted list of entities is ascending and holds exactly the entities of the list it was made
/// from.
pub proof fn lemma_sorted_entities(s: Seq<Entity>)
    ensures
        ascending(sorted_entities(s)),
        forall|x: Entity| #[trigger] sorted_entities(s).contains(x) <==> s.contains(x),
{
    lemma_sorted_prefix(s, s.len() as int);
    assert forall|x: Entity| #[trigger] sorted_entities(s).contains(x) <==> s.contains(x) by {
        if s.contains(x) {
            let i = choose|i: int| 0 <= i < s.len() && s[i] == x;
            assert(s[i] == x);
        }
    }
}

/// Whether the list holds the entity.
pub fn contains_entity(list: &Vec<Entity>, e: Entity) -> (r: bool)
    ensures
        r == list@.contains(e),
{
    let mut i: usize = 0;
    while i < list.len()
        invariant
            i <= list.len(),
            forall|j: int| 0 <= j < i ==> list[j] != e,
        decreases list.len() - i,
    {
        if list[i] == e {
            assert(list@[i as int] == e);
            return true;
        }
        i += 1;
    }
    false
}

/// Adds an entity to an ascending list, unless it is there already.
pub fn insert_entity(list: &mut Vec<Entity>, e: Entity)
    ensures
        final(list)@ == with_entity(old(list)@, e),
{
    let ghost s = list@;
    let mut p: usize = list.len();
    proof {
        lemma_slot(s, e, s.len() as int);
    }
    while p > 0 && list[p - 1].bits >= e.bits
        invariant
            list@ == s,
            p <= s.len(),
            slot(s, e, s.len() as int) == slot(s, e, p as int),
        decreases p,
    {
        p -= 1;
    }
    if p < list.len() && list[p] == e {
        return;
    }
    list.insert(p, e);
}

/// The entities of the list, ascending and each once.
pub fn sort_entities(list: &Vec<Entity>) -> (r: Vec<Entity>)
    ensures
        r@ == sorted_entities(list@),
{
    let mut r: Vec<Entity> = Vec::new();
    let mut n: usize = 0;
    while n < list.len()
        invariant
            n <= list.len(),
            r@ == sorted_prefix(list@, n as int),
        decreases list.len() - n,
    {
        insert_entity(&mut r, list[n]);
        n += 1;
    }
    r
}

/// Adds all entities of the second list behind the first.
pub fn push_entities(list: &mut Vec<Entity>, more: &Vec<Entity>)
    ensures
        final(list)@ == old(list)@ + more@,
{
    let mut n: usize = 0;
    while n < more.len()
        invariant
            n <= more.len(),
            list@ == old(list)@ + more@.take(n as int),
        decreases more.len() - n,
    {
        list.push(more[n]);
        assert(more@.take(n + 1) =~= more@.take(n as int).push(more@[n as int]));
        n += 1;
    }
    assert(more@.take(n as int) =~= more@);
}


/// A joined list holds what either part holds.
pub proof fn lemma_contains_sum(a: Seq<Entity>, b: Seq<Entity>)
    ensures
        forall|e: Entity| #[trigger] (a + b).contains(e) <==> a.contains(e) || b.contains(e),
{
    assert forall|e: Entity| #[trigger] (a + b).contains(e) <==> a.contains(e) || b.contains(e) by {
        if a.contains(e) {
            let i = choose|i: int| 0 <= i < a.len() && a[i] == e;
            assert((a + b)[i] == e);
        }
        if b.contains(e) {
            let i = choose|i: int| 0 <= i < b.len() && b[i] == e;
            assert((a + b)[a.len() + i] == e);
        }
        if (a + b).contains(e) {
            let i = choose|i: int| 0 <= i < (a + b).len() && (a + b)[i] == e;
            if i >= a.len() {
                assert(b[i - a.len()] == e);
            }
        }
    }
}

} // verus!
