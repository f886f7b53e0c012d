//! Which operation owns which unit.
use crate::entity::{
    ascending, contains_entity, insert_entity, lemma_contains_sum, lemma_with_entity, push_entities,
    Entity,
};
use crate::islands::IslandId;
use crate::squad::SquadId;
use crate::units::PlayerId;
use std::collections::HashMap;
use vstd::prelude::*;

verus! {

broadcast use vstd::std_specs::hash::group_hash_axioms;

#[derive(Clone, Copy, Debug, PartialEq, Eq, Hash, Structural)]
pub struct EmergencyMissionId(pub u32);

/// An operation that can own units. A squad is only how an operation is carried out: an island
/// campaign may split into several squads, so units belong to the operation and not to the squad.
#[derive(Clone, Copy, Debug, PartialEq, Eq, Hash, Structural)]
pub enum OperationOwner {
    Campaign { player_id: PlayerId, island_id: IslandId },
    Emergency { player_id: PlayerId, mission_id: EmergencyMissionId },
    TacticalSquad { player_id: PlayerId, squad_id: SquadId },
}

/// The player behind an operation.
pub open spec fn owner_player(owner: OperationOwner) -> PlayerId {
    match owner {
        OperationOwner::Campaign { player_id, .. } => player_id,
        OperationOwner::Emergency { player_id, .. } => player_id,
        OperationOwner::TacticalSquad { player_id, .. } => player_id,
    }
}

impl OperationOwner {
    /// The player behind the operation.
    pub fn player_id(self) -> (r: PlayerId)
        ensures
            r == owner_player(self),
    {
        match self {
            OperationOwner::Campaign { player_id, .. } => player_id,
            OperationOwner::Emergency { player_id, .. } => player_id,
            OperationOwner::TacticalSquad { player_id, .. } => player_id,
        }
    }
}

#[derive(Clone, Copy, Debug, PartialEq, Eq, Hash, Structural)]
pub enum OperationUnitRole {
    Member,
    Transport,
    Cargo,
    DeliveredCargo,
}

/// The one operation that a unit serves, and as what.
#[derive(Clone, Copy, Debug, PartialEq, Eq, Structural)]
pub struct UnitOperationAssignment {
    pub owner: OperationOwner,
    pub squad_id: Option<SquadId>,
    pub role: OperationUnitRole,
    pub assigned_turn: u32,
}

/// The units of one operation, in ascending order.
struct OwnerMembers {
    owner: OperationOwner,
    entities: Vec<Entity>,
}

/// Who owns each unit, with the units of each operation listed as well, so that the end of an
/// operation is paid for by its own units alone.
pub struct UnitOperationRegistry {
    by_entity: HashMap<u64, UnitOperationAssignment>,
    by_owner: Vec<OwnerMembers>,
    conflicts: u64,
    visits: usize,
}

impl Default for UnitOperationRegistry {
    fn default() -> (r: UnitOperationRegistry)
        ensures
            r.wf(),
            r@ == Map::<Entity, UnitOperationAssignment>::empty(),
            r.conflict_count() == 0,
            r.visit_count() == 0,
    {
        UnitOperationRegistry::new()
    }
}

impl View for UnitOperationRegistry {
    type V = Map<Entity, UnitOperationAssignment>;

    closed spec fn view(&self) -> Map<Entity, UnitOperationAssignment> {
        assignments(self.by_entity@)
    }
}

spec fn assignments(by_entity: Map<u64, UnitOperationAssignment>) -> Map<
    Entity,
    UnitOperationAssignment,
> {
    Map::new(|e: Entity| by_entity.contains_key(e.bits), |e: Entity| by_entity[e.bits])
}

/// The list of an operation says nothing but what the assignments say.
spec fn row_sound(
    by_entity: Map<u64, UnitOperationAssignment>,
    row: OwnerMembers,
) -> bool {
    &&& row.entities.len() > 0
    &&& ascending(row.entities@)
    &&& forall|e: Entity|
        #[trigger] row.entities@.contains(e) <==> by_entity.contains_key(e.bits)
            && by_entity[e.bits].owner == row.owner
}

/// Some list belongs to the operation.
spec fn listed(rows: Seq<OwnerMembers>, owner: OperationOwner) -> bool {
    exists|i: int| 0 <= i < rows.len() && (#[trigger] rows[i]).owner == owner
}

spec fn index_exact(by_entity: Map<u64, UnitOperationAssignment>, rows: Seq<OwnerMembers>) -> bool {
    &&& forall|i: int| 0 <= i < rows.len() ==> row_sound(by_entity, #[trigger] rows[i])
    &&& forall|i: int, j: int|
        0 <= i < j < rows.len() ==> (#[trigger] rows[i]).owner != (#[trigger] rows[j]).owner
    &&& forall|bits: u64|
        #[trigger] by_entity.contains_key(bits) ==> listed(rows, by_entity[bits].owner)
}

/// The units that the operation owns.
pub open spec fn owned_by(
    m: Map<Entity, UnitOperationAssignment>,
    owner: OperationOwner,
) -> Set<Entity> {
    Set::new(|e: Entity| m.contains_key(e) && m[e].owner == owner)
}

/// The assignments without those of one operation.
pub open spec fn without_owner(
    m: Map<Entity, UnitOperationAssignment>,
    owner: OperationOwner,
) -> Map<Entity, UnitOperationAssignment> {
    m.remove_keys(owned_by(m, owner))
}

/// The end of an operation frees its own units and leaves every other assignment as it was.
pub proof fn law_release_frees_own_units_only(
    m: Map<Entity, UnitOperationAssignment>,
    owner: OperationOwner,
    e: Entity,
)
    ensures
        m.contains_key(e) && m[e].owner != owner ==> without_owner(m, owner).contains_key(e)
            && without_owner(m, owner)[e] == m[e],
        m.contains_key(e) && m[e].owner == owner ==> !without_owner(m, owner).contains_key(e),
{
}

/// Once a unit has a new owner, the end of its former operation no longer touches it.
pub proof fn law_reassigned_unit_survives_old_operation(
    m: Map<Entity, UnitOperationAssignment>,
    e: Entity,
    first: UnitOperationAssignment,
    second: UnitOperationAssignment,
)
    requires
        first.owner != second.owner,
    ensures
        without_owner(m.insert(e, first).insert(e, second), first.owner).contains_key(e),
        without_owner(m.insert(e, first).insert(e, second), first.owner)[e] == second,
        !without_owner(m.insert(e, first).insert(e, second), second.owner).contains_key(e),
{
}

impl UnitOperationRegistry {
    /// The lists of the operations mirror the assignments exactly: each assigned unit stands in
    /// the list of its owner and in no other, and no list is empty.
    pub closed spec fn wf(self) -> bool {
        index_exact(self.by_entity@, self.by_owner@)
    }

    /// How many conflicting claims were turned down.
    pub closed spec fn conflict_count(self) -> u64 {
        self.conflicts
    }

    /// How many units the last reconciliation looked at.
    pub closed spec fn visit_count(self) -> usize {
        self.visits
    }

    /// A registry without assignments.
    pub fn new() -> (r: UnitOperationRegistry)
        ensures
            r.wf(),
            r@ == Map::<Entity, UnitOperationAssignment>::empty(),
            r.conflict_count() == 0,
            r.visit_count() == 0,
    {
        let r = UnitOperationRegistry {
            by_entity: HashMap::new(),
            by_owner: Vec::new(),
            conflicts: 0,
            visits: 0,
        };
        assert(r@ =~= Map::<Entity, UnitOperationAssignment>::empty());
        r
    }

    /// The assignment of a unit, if it has one.
    pub fn assignment(&self, entity: Entity) -> (r: Option<UnitOperationAssignment>)
        ensures
            r == (if self@.contains_key(entity) {
                Some(self@[entity])
            } else {
                None
            }),
    {
        match self.by_entity.get(&entity.bits) {
            Some(assignment) => Some(*assignment),
            None => None,
        }
    }

    /// The units in campaigns of the player, each with the island of its campaign.
    pub fn campaign_entity_assignments(&self, player_id: PlayerId) -> (r: Vec<(Entity, IslandId)>)
        requires
            self.wf(),
        ensures
            forall|i: int, j: int| 0 <= i < j < r.len() ==> (#[trigger] r[i]).0 != (#[trigger] r[j]).0,
            forall|e: Entity, island_id: IslandId|
                #[trigger] r@.contains((e, island_id)) <==> self@.contains_key(e) && self@[e].owner
                    == (OperationOwner::Campaign { player_id, island_id }),
    {
        let mut r: Vec<(Entity, IslandId)> = Vec::new();
        let mut i: usize = 0;
        while i < self.by_owner.len()
            invariant
                i <= self.by_owner.len(),
                self.wf(),
                forall|a: int, b: int|
                    0 <= a < b < r.len() ==> (#[trigger] r[a]).0 != (#[trigger] r[b]).0,
                forall|e: Entity, island_id: IslandId|
                    #[trigger] r@.contains((e, island_id)) <==> exists|k: int|
                        0 <= k < i && (#[trigger] self.by_owner[k]).owner == (
                        OperationOwner::Campaign { player_id, island_id })
                            && self.by_owner[k].entities@.contains(e),
            decreases self.by_owner.len() - i,
        {
            let ghost before = r@;
            if let OperationOwner::Campaign { player_id: owner, island_id: island } =
                self.by_owner[i].owner {
                if owner == player_id {
                    let mut n: usize = 0;
                    while n < self.by_owner[i].entities.len()
                        invariant
                            i < self.by_owner.len(),
                            n <= self.by_owner[i as int].entities.len(),
                            self.wf(),
                            self.by_owner[i as int].owner == (OperationOwner::Campaign {
                                player_id,
                                island_id: island,
                            }),
                            r.len() == before.len() + n,
                            forall|a: int| 0 <= a < before.len() ==> #[trigger] r[a] == before[a],
                            forall|a: int|
                                0 <= a < n ==> r[before.len() + a] == (
                                #[trigger] self.by_owner[i as int].entities[a],
                                island,
                            ),
                        decreases self.by_owner[i as int].entities.len() - n,
                    {
                        r.push((self.by_owner[i].entities[n], island));
                        n += 1;
                    }
                    proof {
                        let row = self.by_owner[i as int];
                        assert(row_sound(self.by_entity@, row));
                        assert forall|a: int, b: int| 0 <= a < b < r.len() implies (
                        #[trigger] r[a]).0 != (#[trigger] r[b]).0 by {
                            if a >= before.len() {
                                let (x, y) = (a - before.len(), b - before.len());
                                assert(r[before.len() + x] == (row.entities[x], island));
                                assert(r[before.len() + y] == (row.entities[y], island));
                            } else if b >= before.len() {
                                let y = b - before.len();
                                assert(r[before.len() + y] == (row.entities[y], island));
                                assert(row.entities@.contains(row.entities[y]));
                                let (e, other) = before[a];
                                assert(before.contains((e, other)));
                                let k = choose|k: int|
                                    0 <= k < i && (#[trigger] self.by_owner[k]).owner == (
                                    OperationOwner::Campaign { player_id, island_id: other })
                                        && self.by_owner[k].entities@.contains(e);
                                assert(row_sound(self.by_entity@, self.by_owner[k]));
                            }
                        }
                        assert forall|e: Entity, id: IslandId|
                            #[trigger] r@.contains((e, id)) <==> exists|k: int|
                                0 <= k < i + 1 && (#[trigger] self.by_owner[k]).owner == (
                                OperationOwner::Campaign { player_id, island_id: id })
                                    && self.by_owner[k].entities@.contains(e) by {
                            if r@.contains((e, id)) {
                                let a = choose|a: int| 0 <= a < r@.len() && r@[a] == (e, id);
                                if a < before.len() {
                                    assert(before[a] == (e, id));
                                    assert(before.contains((e, id)));
                                } else {
                                    let x = a - before.len();
                                    assert(r[before.len() + x] == (row.entities[x], island));
                                    assert(self.by_owner[i as int].entities@.contains(e));
                                }
                            }
                            if exists|k: int|
                                0 <= k < i + 1 && (#[trigger] self.by_owner[k]).owner == (
                                OperationOwner::Campaign { player_id, island_id: id })
                                    && self.by_owner[k].entities@.contains(e) {
                                let k = choose|k: int|
                                    0 <= k < i + 1 && (#[trigger] self.by_owner[k]).owner == (
                                    OperationOwner::Campaign { player_id, island_id: id })
                                        && self.by_owner[k].entities@.contains(e);
                                if k < i {
                                    assert(before.contains((e, id)));
                                    let a = choose|a: int|
                                        0 <= a < before.len() && before[a] == (e, id);
                                    assert(r@[a] == (e, id));
                                } else {
                                    let x = choose|x: int|
                                        0 <= x < row.entities@.len() && row.entities@[x] == e;
                                    assert(r[before.len() + x] == (row.entities[x], island));
                                }
                            }
                        }
                    }
                }
            }
            i += 1;
        }
        proof {
            assert forall|e: Entity, island_id: IslandId|
                #[trigger] r@.contains((e, island_id)) <==> self@.contains_key(e) && self@[e].owner
                    == (OperationOwner::Campaign { player_id, island_id }) by {
                let owner = OperationOwner::Campaign { player_id, island_id };
                if r@.contains((e, island_id)) {
                    let k = choose|k: int|
                        0 <= k < i && (#[trigger] self.by_owner[k]).owner == owner
                            && self.by_owner[k].entities@.contains(e);
                    assert(row_sound(self.by_entity@, self.by_owner[k]));
                }
                if self@.contains_key(e) && self@[e].owner == owner {
                    assert(self.by_entity@.contains_key(e.bits));
                    assert(listed(self.by_owner@, owner));
                    let k = choose|k: int|
                        0 <= k < self.by_owner@.len() && (#[trigger] self.by_owner@[k]).owner
                            == owner;
                    assert(row_sound(self.by_entity@, self.by_owner[k]));
                    assert(self.by_owner[k].entities@.contains(e));
                }
            }
        }
        r
    }

    /// How many conflicting claims were turned down.
    pub fn rejected_conflicts(&self) -> (r: u64)
        ensures
            r == self.conflict_count(),
    {
        self.conflicts
    }

    /// How many units the last reconciliation looked at.
    pub fn last_reconcile_visits(&self) -> (r: usize)
        ensures
            r == self.visit_count(),
    {
        self.visits
    }

    /// Keeps how many units a reconciliation looked at.
    pub fn note_reconcile_visits(&mut self, visits: usize)
        requires
            old(self).wf(),
        ensures
            final(self).wf(),
            final(self)@ == old(self)@,
            final(self).conflict_count() == old(self).conflict_count(),
            final(self).visit_count() == visits,
    {
        self.visits = visits;
    }

    /// Counts one more claim that was turned down.
    pub fn note_rejected_conflict(&mut self)
        requires
            old(self).wf(),
        ensures
            final(self).wf(),
            final(self)@ == old(self)@,
            final(self).conflict_count() == old(self).conflict_count().saturating_add(1),
            final(self).visit_count() == old(self).visit_count(),
    {
        self.conflicts = self.conflicts.saturating_add(1);
    }
}


proof fn lemma_without(s: Seq<Entity>, p: int)
    requires
        ascending(s),
        0 <= p < s.len(),
    ensures
        ascending(s.remove(p)),
        forall|x: Entity| #[trigger] s.remove(p).contains(x) <==> s.contains(x) && x != s[p],
{
    let t = s.remove(p);
    assert forall|i: int, j: int| 0 <= i < j < t.len() implies (#[trigger] t[i]).bits < (
    #[trigger] t[j]).bits by {
        let a = if i < p { i } else { i + 1 };
        let b = if j < p { j } else { j + 1 };
        assert(t[i] == s[a] && t[j] == s[b]);
    }
    assert forall|x: Entity| #[trigger] t.contains(x) <==> s.contains(x) && x != s[p] by {
        if t.contains(x) {
            let i = choose|i: int| 0 <= i < t.len() && t[i] == x;
            let a = if i < p { i } else { i + 1 };
            assert(s[a] == x);
            assert(s[a].bits != s[p].bits);
        }
        if s.contains(x) && x != s[p] {
            let a = choose|a: int| 0 <= a < s.len() && s[a] == x;
            if a < p {
                assert(t[a] == x);
            } else {
                assert(t[a - 1] == x);
            }
        }
    }
}

/// The place of the operation's list.
fn find_owner(rows: &Vec<OwnerMembers>, owner: OperationOwner) -> (r: Option<usize>)
    ensures
        r matches Some(i) ==> i < rows.len() && rows[i as int].owner == owner,
        r is None ==> !listed(rows@, owner),
{
    let mut i: usize = 0;
    while i < rows.len()
        invariant
            i <= rows.len(),
            forall|j: int| 0 <= j < i ==> (#[trigger] rows[j]).owner != owner,
        decreases rows.len() - i,
    {
        if rows[i].owner == owner {
            return Some(i);
        }
        i += 1;
    }
    None
}

/// Takes a unit out of the list of its owner, and the list away once it is empty.
fn unlist(
    rows: &mut Vec<OwnerMembers>,
    owner: OperationOwner,
    e: Entity,
    Ghost(m): Ghost<Map<u64, UnitOperationAssignment>>,
)
    requires
        index_exact(m, old(rows)@),
        m.contains_key(e.bits),
        m[e.bits].owner == owner,
    ensures
        index_exact(m.remove(e.bits), final(rows)@),
{
    let ghost before = rows@;
    let ghost left = m.remove(e.bits);
    if let Some(i) = find_owner(rows, owner) {
        assert(row_sound(m, before[i as int]));
        assert(before[i as int].entities@.contains(e));
        let mut p: usize = 0;
        while rows[i].entities[p] != e
            invariant
                rows@ == before,
                i < rows.len(),
                p < rows[i as int].entities.len(),
                exists|k: int| p <= k < rows[i as int].entities.len() && rows[i as int].entities[k] == e,
            decreases rows[i as int].entities.len() - p,
        {
            p += 1;
        }
        rows[i].entities.remove(p);
        let ghost mid = rows@;
        proof {
            lemma_without(before[i as int].entities@, p as int);
            assert(mid[i as int].owner == owner);
            assert forall|k: int| 0 <= k < mid.len() && k != i implies row_sound(
                left,
                #[trigger] mid[k],
            ) by {
                assert(mid[k] == before[k]);
                assert(row_sound(m, before[k]));
            }
            assert forall|x: Entity|
                #[trigger] mid[i as int].entities@.contains(x) <==> left.contains_key(x.bits)
                    && left[x.bits].owner == owner by {
                assert(before[i as int].entities@.contains(x) <==> m.contains_key(x.bits)
                    && m[x.bits].owner == owner);
                assert(x.bits == e.bits ==> x == e);
            }
        }
        if rows[i].entities.len() == 0 {
            rows.remove(i);
            proof {
                let after = rows@;
                assert forall|k: int| 0 <= k < after.len() implies row_sound(
                    left,
                    #[trigger] after[k],
                ) by {
                    let a = if k < i { k } else { k + 1 };
                    assert(after[k] == mid[a]);
                }
                assert forall|a: int, b: int| 0 <= a < b < after.len() implies (
                #[trigger] after[a]).owner != (#[trigger] after[b]).owner by {
                    let x = if a < i { a } else { a + 1 };
                    let y = if b < i { b } else { b + 1 };
                    assert(after[a] == mid[x] && after[b] == mid[y]);
                    assert(before[x].owner != before[y].owner);
                }
                assert forall|bits: u64| #[trigger] left.contains_key(bits) implies listed(
                    after,
                    left[bits].owner,
                ) by {
                    assert(listed(before, m[bits].owner));
                    let x = Entity { bits };
                    if left[bits].owner == owner {
                        assert(mid[i as int].entities@.contains(x));
                    }
                    let k = choose|k: int|
                        0 <= k < before.len() && (#[trigger] before[k]).owner == m[bits].owner;
                    let a = if k < i { k } else { k - 1 };
                    assert(after[a] == mid[k]);
                }
            }
        } else {
            proof {
                assert forall|bits: u64| #[trigger] left.contains_key(bits) implies listed(
                    mid,
                    left[bits].owner,
                ) by {
                    assert(listed(before, m[bits].owner));
                    let k = choose|k: int|
                        0 <= k < before.len() && (#[trigger] before[k]).owner == m[bits].owner;
                    assert(mid[k].owner == before[k].owner);
                }
                assert forall|a: int, b: int| 0 <= a < b < mid.len() implies (
                #[trigger] mid[a]).owner != (#[trigger] mid[b]).owner by {
                    assert(before[a].owner != before[b].owner);
                }
            }
        }
    } else {
        assert(listed(before, m[e.bits].owner));
    }
}

/// Puts a unit without owner into the list of its new owner.
fn enlist(
    rows: &mut Vec<OwnerMembers>,
    e: Entity,
    assignment: UnitOperationAssignment,
    Ghost(m): Ghost<Map<u64, UnitOperationAssignment>>,
)
    requires
        index_exact(m, old(rows)@),
        !m.contains_key(e.bits),
    ensures
        index_exact(m.insert(e.bits, assignment), final(rows)@),
{
    let ghost before = rows@;
    let ghost more = m.insert(e.bits, assignment);
    let owner = assignment.owner;
    let place = find_owner(rows, owner);
    if let Some(i) = place {
        assert(row_sound(m, before[i as int]));
        insert_entity(&mut rows[i].entities, e);
        proof {
            let after = rows@;
            lemma_with_entity(before[i as int].entities@, e);
            assert(after[i as int].entities@.contains(e));
            assert forall|x: Entity|
                #[trigger] after[i as int].entities@.contains(x) <==> more.contains_key(x.bits)
                    && more[x.bits].owner == owner by {
                assert(before[i as int].entities@.contains(x) <==> m.contains_key(x.bits)
                    && m[x.bits].owner == owner);
                assert(x.bits == e.bits ==> x == e);
            }
            assert forall|k: int| 0 <= k < after.len() && k != i implies row_sound(
                more,
                #[trigger] after[k],
            ) by {
                assert(after[k] == before[k]);
                assert(row_sound(m, before[k]));
                assert(before[k].owner != owner);
                assert forall|x: Entity|
                    #[trigger] after[k].entities@.contains(x) <==> more.contains_key(x.bits)
                        && more[x.bits].owner == after[k].owner by {
                    assert(x.bits == e.bits ==> x == e);
                }
            }
            assert forall|a: int, b: int| 0 <= a < b < after.len() implies (
            #[trigger] after[a]).owner != (#[trigger] after[b]).owner by {
                assert(before[a].owner != before[b].owner);
            }
            assert forall|bits: u64| #[trigger] more.contains_key(bits) implies listed(
                after,
                more[bits].owner,
            ) by {
                if bits == e.bits {
                    assert(after[i as int].owner == owner);
                } else {
                    assert(listed(before, m[bits].owner));
                    let k = choose|k: int|
                        0 <= k < before.len() && (#[trigger] before[k]).owner == m[bits].owner;
                    assert(after[k].owner == before[k].owner);
                }
            }
        }
    } else {
        let mut entities: Vec<Entity> = Vec::new();
        entities.push(e);
        rows.push(OwnerMembers { owner, entities });
        proof {
            let after = rows@;
            let last = before.len() as int;
            assert forall|x: Entity|
                #[trigger] after[last].entities@.contains(x) <==> more.contains_key(x.bits)
                    && more[x.bits].owner == owner by {
                assert(after[last].entities@[0] == e);
                assert(x.bits == e.bits ==> x == e);
                if m.contains_key(x.bits) && m[x.bits].owner == owner {
                    assert(listed(before, owner));
                }
                if after[last].entities@.contains(x) {
                    assert(x == e);
                }
            }
            assert forall|k: int| 0 <= k < last implies row_sound(more, #[trigger] after[k]) by {
                assert(after[k] == before[k]);
                assert(row_sound(m, before[k]));
                assert(before[k].owner != owner);
                assert forall|x: Entity|
                    #[trigger] after[k].entities@.contains(x) <==> more.contains_key(x.bits)
                        && more[x.bits].owner == after[k].owner by {
                    assert(x.bits == e.bits ==> x == e);
                }
            }
            assert forall|a: int, b: int| 0 <= a < b < after.len() implies (
            #[trigger] after[a]).owner != (#[trigger] after[b]).owner by {
                assert(after[a] == before[a]);
                if b < last {
                    assert(before[a].owner != before[b].owner);
                } else {
                    assert(before[a].owner != owner);
                }
            }
            assert forall|bits: u64| #[trigger] more.contains_key(bits) implies listed(
                after,
                more[bits].owner,
            ) by {
                if bits == e.bits {
                    assert(after[last].owner == owner);
                } else {
                    assert(listed(before, m[bits].owner));
                    let k = choose|k: int|
                        0 <= k < before.len() && (#[trigger] before[k]).owner == m[bits].owner;
                    assert(after[k].owner == before[k].owner);
                }
            }
        }
    }
}

impl UnitOperationRegistry {
    /// Gives a unit to an operation. What it belonged to before loses it.
    pub fn assign(&mut self, entity: Entity, assignment: UnitOperationAssignment)
        requires
            old(self).wf(),
        ensures
            final(self).wf(),
            final(self)@ == old(self)@.insert(entity, assignment),
            final(self).conflict_count() == old(self).conflict_count(),
            final(self).visit_count() == old(self).visit_count(),
    {
        let ghost m = self.by_entity@;
        let ghost rows = self.by_owner@;
        let ghost more = m.insert(entity.bits, assignment);
        let previous = self.by_entity.insert(entity.bits, assignment);
        assert(self@ =~= old(self)@.insert(entity, assignment)) by {
            assert forall|e: Entity| e.bits == entity.bits implies e == entity by {}
        }
        match previous {
            Some(earlier) => {
                if earlier.owner != assignment.owner {
                    unlist(&mut self.by_owner, earlier.owner, entity, Ghost(m));
                    enlist(&mut self.by_owner, entity, assignment, Ghost(m.remove(entity.bits)));
                    assert(m.remove(entity.bits).insert(entity.bits, assignment) =~= more);
                } else {
                    proof {
                        assert forall|i: int| 0 <= i < rows.len() implies row_sound(
                            more,
                            #[trigger] rows[i],
                        ) by {
                            assert(row_sound(m, rows[i]));
                            assert forall|x: Entity|
                                #[trigger] rows[i].entities@.contains(x) <==> more.contains_key(
                                    x.bits,
                                ) && more[x.bits].owner == rows[i].owner by {
                                assert(rows[i].entities@.contains(x) <==> m.contains_key(x.bits)
                                    && m[x.bits].owner == rows[i].owner);
                            }
                        }
                        assert forall|bits: u64| #[trigger] more.contains_key(bits) implies listed(
                            rows,
                            more[bits].owner,
                        ) by {
                            assert(m.contains_key(bits));
                        }
                    }
                }
            },
            None => {
                enlist(&mut self.by_owner, entity, assignment, Ghost(m));
            },
        }
    }

    /// Takes a unit from its operation, if it has one.
    pub fn release_entity(&mut self, entity: Entity)
        requires
            old(self).wf(),
        ensures
            final(self).wf(),
            final(self)@ == old(self)@.remove(entity),
            final(self).conflict_count() == old(self).conflict_count(),
            final(self).visit_count() == old(self).visit_count(),
    {
        let ghost m = self.by_entity@;
        let previous = match self.by_entity.get(&entity.bits) {
            Some(assignment) => Some(*assignment),
            None => None,
        };
        if let Some(assignment) = previous {
            self.by_entity.remove(&entity.bits);
            unlist(&mut self.by_owner, assignment.owner, entity, Ghost(m));
            assert(self.by_entity@ =~= m.remove(entity.bits));
        }
        assert(self@ =~= old(self)@.remove(entity)) by {
            assert forall|e: Entity| e.bits == entity.bits implies e == entity by {}
        }
    }

    /// Ends an operation: all its units are free, and no other unit is touched.
    pub fn release_operation(&mut self, owner: OperationOwner)
        requires
            old(self).wf(),
        ensures
            final(self).wf(),
            final(self)@ == without_owner(old(self)@, owner),
            final(self).conflict_count() == old(self).conflict_count(),
            final(self).visit_count() == old(self).visit_count(),
    {
        let ghost m = self.by_entity@;
        let ghost before = self.by_owner@;
        if let Some(i) = find_owner(&self.by_owner, owner) {
            let row = self.by_owner.remove(i);
            assert(row == before[i as int]);
            assert(row_sound(m, row));
            let mut n: usize = 0;
            while n < row.entities.len()
                invariant
                    n <= row.entities.len(),
                    row_sound(m, row),
                    self.by_owner@ == before.remove(i as int),
                    self.conflicts == old(self).conflicts,
                    self.visits == old(self).visits,
                    forall|bits: u64|
                        #[trigger] self.by_entity@.contains_key(bits) <==> m.contains_key(bits) && !(
                        exists|k: int| 0 <= k < n && (#[trigger] row.entities@[k]).bits == bits),
                    forall|bits: u64|
                        #[trigger] self.by_entity@.contains_key(bits) ==> self.by_entity@[bits]
                            == m[bits],
                decreases row.entities.len() - n,
            {
                let bits: u64 = row.entities[n].bits;
                let ghost earlier = self.by_entity@;
                self.by_entity.remove(&bits);
                assert(self.by_entity@ =~= earlier.remove(bits));
                assert(row.entities@[n as int].bits == bits);
                n += 1;
            }
            proof {
                let after = self.by_owner@;
                let left = self.by_entity@;
                assert forall|bits: u64|
                    #[trigger] left.contains_key(bits) <==> m.contains_key(bits) && m[bits].owner
                        != owner by {
                    let x = Entity { bits };
                    if m.contains_key(bits) && m[bits].owner == owner {
                        assert(row.entities@.contains(x));
                        let k = choose|k: int| 0 <= k < row.entities@.len() && row.entities@[k] == x;
                        assert(row.entities@[k].bits == bits);
                    }
                    if m.contains_key(bits) && !left.contains_key(bits) {
                        let k = choose|k: int|
                            0 <= k < n && (#[trigger] row.entities@[k]).bits == bits;
                        assert(row.entities@.contains(row.entities@[k]));
                    }
                }
                assert forall|k: int| 0 <= k < after.len() implies row_sound(
                    left,
                    #[trigger] after[k],
                ) by {
                    let a = if k < i { k } else { k + 1 };
                    assert(after[k] == before[a]);
                    assert(row_sound(m, before[a]));
                    assert(before[i as int].owner == owner);
                    assert(before[a].owner != owner) by {
                        if a < i {
                            assert(before[a].owner != before[i as int].owner);
                        } else {
                            assert(before[i as int].owner != before[a].owner);
                        }
                    }
                    assert forall|x: Entity|
                        #[trigger] after[k].entities@.contains(x) <==> left.contains_key(x.bits)
                            && left[x.bits].owner == after[k].owner by {
                        assert(before[a].entities@.contains(x) <==> m.contains_key(x.bits)
                            && m[x.bits].owner == before[a].owner);
                        assert(left.contains_key(x.bits) ==> left[x.bits] == m[x.bits]);
                    }
                }
                assert forall|a: int, b: int| 0 <= a < b < after.len() implies (
                #[trigger] after[a]).owner != (#[trigger] after[b]).owner by {
                    let x = if a < i { a } else { a + 1 };
                    let y = if b < i { b } else { b + 1 };
                    assert(before[x].owner != before[y].owner);
                }
                assert forall|bits: u64| #[trigger] left.contains_key(bits) implies listed(
                    after,
                    left[bits].owner,
                ) by {
                    assert(m.contains_key(bits));
                    assert(listed(before, m[bits].owner));
                    let k = choose|k: int|
                        0 <= k < before.len() && (#[trigger] before[k]).owner == m[bits].owner;
                    let a = if k < i { k } else { k - 1 };
                    assert(after[a] == before[k]);
                }
                assert(self@ =~= without_owner(old(self)@, owner));
            }
        } else {
            proof {
                assert forall|e: Entity| old(self)@.contains_key(e) implies #[trigger] old(
                    self,
                )@[e].owner != owner by {
                    assert(m.contains_key(e.bits));
                    assert(listed(before, m[e.bits].owner));
                }
                assert(self@ =~= without_owner(old(self)@, owner));
            }
        }
    }

    /// The units of the player, each once.
    fn player_entities(&self, player_id: PlayerId) -> (r: Vec<Entity>)
        requires
            self.wf(),
        ensures
            r@.no_duplicates(),
            forall|e: Entity|
                #[trigger] r@.contains(e) <==> self@.contains_key(e) && owner_player(self@[e].owner)
                    == player_id,
    {
        let mut r: Vec<Entity> = Vec::new();
        let mut i: usize = 0;
        while i < self.by_owner.len()
            invariant
                i <= self.by_owner.len(),
                self.wf(),
                r@.no_duplicates(),
                forall|e: Entity|
                    #[trigger] r@.contains(e) <==> exists|k: int|
                        0 <= k < i && owner_player((#[trigger] self.by_owner[k]).owner) == player_id
                            && self.by_owner[k].entities@.contains(e),
            decreases self.by_owner.len() - i,
        {
            let ghost before = r@;
            let ghost row = self.by_owner[i as int];
            if self.by_owner[i].owner.player_id() == player_id {
                push_entities(&mut r, &self.by_owner[i].entities);
                proof {
                    assert(row_sound(self.by_entity@, row));
                    lemma_contains_sum(before, row.entities@);
                    assert forall|e: Entity| before.contains(e) implies !row.entities@.contains(
                        e,
                    ) by {
                        let k = choose|k: int|
                            0 <= k < i && owner_player((#[trigger] self.by_owner[k]).owner)
                                == player_id && self.by_owner[k].entities@.contains(e);
                        assert(row_sound(self.by_entity@, self.by_owner[k]));
                    }
                    assert forall|a: int, b: int|
                        0 <= a < r@.len() && 0 <= b < r@.len() && a != b implies r@[a] != r@[b] by {
                        let n = before.len() as int;
                        if a < n && b >= n {
                            assert(before.contains(before[a]));
                            assert(row.entities@.contains(row.entities@[b - n]));
                        } else if a >= n && b < n {
                            assert(before.contains(before[b]));
                            assert(row.entities@.contains(row.entities@[a - n]));
                        } else if a >= n {
                            assert(row.entities@[a - n].bits != row.entities@[b - n].bits);
                        }
                    }
                }
            }
            proof {
                assert forall|e: Entity|
                    #[trigger] r@.contains(e) <==> exists|k: int|
                        0 <= k < i + 1 && owner_player((#[trigger] self.by_owner[k]).owner)
                            == player_id && self.by_owner[k].entities@.contains(e) by {
                    if r@.contains(e) {
                        if before.contains(e) {
                            let k = choose|k: int|
                                0 <= k < i && owner_player((#[trigger] self.by_owner[k]).owner)
                                    == player_id && self.by_owner[k].entities@.contains(e);
                            assert(0 <= k < i + 1 && owner_player(self.by_owner[k].owner)
                                == player_id);
                        } else {
                            assert(self.by_owner[i as int].entities@.contains(e));
                        }
                    }
                    if exists|k: int|
                        0 <= k < i + 1 && owner_player((#[trigger] self.by_owner[k]).owner)
                            == player_id && self.by_owner[k].entities@.contains(e) {
                        let k = choose|k: int|
                            0 <= k < i + 1 && owner_player((#[trigger] self.by_owner[k]).owner)
                                == player_id && self.by_owner[k].entities@.contains(e);
                        if k < i {
                            assert(before.contains(e));
                        }
                    }
                }
            }
            i += 1;
        }
        proof {
            assert forall|e: Entity|
                #[trigger] r@.contains(e) <==> self@.contains_key(e) && owner_player(self@[e].owner)
                    == player_id by {
                if r@.contains(e) {
                    let k = choose|k: int|
                        0 <= k < i && owner_player((#[trigger] self.by_owner[k]).owner) == player_id
                            && self.by_owner[k].entities@.contains(e);
                    assert(row_sound(self.by_entity@, self.by_owner[k]));
                }
                if self@.contains_key(e) && owner_player(self@[e].owner) == player_id {
                    assert(self.by_entity@.contains_key(e.bits));
                    assert(listed(self.by_owner@, self@[e].owner));
                    let k = choose|k: int|
                        0 <= k < self.by_owner@.len() && (#[trigger] self.by_owner@[k]).owner
                            == self@[e].owner;
                    assert(row_sound(self.by_entity@, self.by_owner[k]));
                    assert(self.by_owner[k].entities@.contains(e));
                }
            }
        }
        r
    }

    /// The units of the player with their assignments, each unit once.
    pub fn player_assignments(&self, player_id: PlayerId) -> (r: Vec<
        (Entity, UnitOperationAssignment),
    >)
        requires
            self.wf(),
        ensures
            forall|i: int, j: int| 0 <= i < j < r.len() ==> (#[trigger] r[i]).0 != (#[trigger] r[j]).0,
            forall|e: Entity, a: UnitOperationAssignment|
                #[trigger] r@.contains((e, a)) <==> self@.contains_key(e) && self@[e] == a
                    && owner_player(a.owner) == player_id,
    {
        let entities = self.player_entities(player_id);
        let mut r: Vec<(Entity, UnitOperationAssignment)> = Vec::new();
        let mut n: usize = 0;
        while n < entities.len()
            invariant
                n <= entities.len(),
                r.len() == n,
                forall|e: Entity|
                    #[trigger] entities@.contains(e) <==> self@.contains_key(e) && owner_player(
                        self@[e].owner,
                    ) == player_id,
                forall|i: int|
                    0 <= i < n ==> #[trigger] r[i] == (entities@[i], self@[entities@[i]]),
            decreases entities.len() - n,
        {
            assert(entities@.contains(entities@[n as int]));
            if let Some(assignment) = self.assignment(entities[n]) {
                r.push((entities[n], assignment));
            }
            n += 1;
        }
        proof {
            assert forall|e: Entity, a: UnitOperationAssignment|
                #[trigger] r@.contains((e, a)) <==> self@.contains_key(e) && self@[e] == a
                    && owner_player(a.owner) == player_id by {
                if r@.contains((e, a)) {
                    let i = choose|i: int| 0 <= i < r@.len() && r@[i] == (e, a);
                    assert(r[i] == (entities@[i], self@[entities@[i]]));
                    assert(entities@.contains(entities@[i]));
                }
                if self@.contains_key(e) && self@[e] == a && owner_player(a.owner) == player_id {
                    assert(entities@.contains(e));
                    let i = choose|i: int| 0 <= i < entities@.len() && entities@[i] == e;
                    assert(r[i] == (entities@[i], self@[entities@[i]]));
                }
            }
        }
        r
    }

    /// How many units of the player serve in operations.
    pub fn assigned_count(&self, player_id: PlayerId) -> (r: usize)
        requires
            self.wf(),
        ensures
            r == Set::new(
                |e: Entity| self@.contains_key(e) && owner_player(self@[e].owner) == player_id,
            ).len(),
    {
        let entities = self.player_entities(player_id);
        proof {
            let units = Set::new(
                |e: Entity| self@.contains_key(e) && owner_player(self@[e].owner) == player_id,
            );
            assert(entities@.to_set() =~= units);
            entities@.unique_seq_to_set();
        }
        entities.len()
    }

    /// The campaigns of the player that own at least one unit, each once.
    pub fn campaign_owners(&self, player_id: PlayerId) -> (r: Vec<OperationOwner>)
        requires
            self.wf(),
        ensures
            r@.no_duplicates(),
            forall|owner: OperationOwner|
                #[trigger] r@.contains(owner) <==> owner is Campaign && owner_player(owner)
                    == player_id && exists|e: Entity| owned_by(self@, owner).contains(e),
    {
        let mut r: Vec<OperationOwner> = Vec::new();
        let mut i: usize = 0;
        while i < self.by_owner.len()
            invariant
                i <= self.by_owner.len(),
                self.wf(),
                r@.no_duplicates(),
                forall|owner: OperationOwner|
                    #[trigger] r@.contains(owner) <==> owner is Campaign && owner_player(owner)
                        == player_id && exists|k: int|
                        0 <= k < i && (#[trigger] self.by_owner[k]).owner == owner,
            decreases self.by_owner.len() - i,
        {
            let ghost before = r@;
            let here = self.by_owner[i].owner;
            let campaign: bool = match here {
                OperationOwner::Campaign { .. } => true,
                _ => false,
            };
            if campaign && here.player_id() == player_id {
                r.push(here);
                proof {
                    assert(r@[before.len() as int] == here);
                    assert(!before.contains(here)) by {
                        if before.contains(here) {
                            let k = choose|k: int|
                                0 <= k < i && (#[trigger] self.by_owner[k]).owner == here;
                            assert(self.by_owner[k].owner != self.by_owner[i as int].owner);
                        }
                    }
                    assert forall|a: int, b: int|
                        0 <= a < r@.len() && 0 <= b < r@.len() && a != b implies r@[a] != r@[b] by {
                        if a < before.len() {
                            assert(before.contains(before[a]));
                        }
                        if b < before.len() {
                            assert(before.contains(before[b]));
                        }
                    }
                }
            }
            proof {
                assert forall|owner: OperationOwner|
                    #[trigger] r@.contains(owner) <==> owner is Campaign && owner_player(owner)
                        == player_id && exists|k: int|
                        0 <= k < i + 1 && (#[trigger] self.by_owner[k]).owner == owner by {
                    if r@.contains(owner) {
                        let a = choose|a: int| 0 <= a < r@.len() && r@[a] == owner;
                        if a < before.len() {
                            assert(before.contains(before[a]));
                            let k = choose|k: int|
                                0 <= k < i && (#[trigger] self.by_owner[k]).owner == owner;
                            assert(0 <= k < i + 1 && self.by_owner[k].owner == owner);
                        } else {
                            assert(self.by_owner[i as int].owner == owner);
                        }
                    }
                    if owner is Campaign && owner_player(owner) == player_id && exists|k: int|
                        0 <= k < i + 1 && (#[trigger] self.by_owner[k]).owner == owner {
                        let k = choose|k: int|
                            0 <= k < i + 1 && (#[trigger] self.by_owner[k]).owner == owner;
                        if k < i {
                            assert(before.contains(owner));
                            let a = choose|a: int| 0 <= a < before.len() && before[a] == owner;
                            assert(r@[a] == owner);
                        } else {
                            assert(r@[before.len() as int] == owner);
                        }
                    }
                }
            }
            i += 1;
        }
        proof {
            assert forall|owner: OperationOwner|
                #[trigger] r@.contains(owner) <==> owner is Campaign && owner_player(owner)
                    == player_id && exists|e: Entity| owned_by(self@, owner).contains(e) by {
                if r@.contains(owner) {
                    let k = choose|k: int|
                        0 <= k < i && (#[trigger] self.by_owner[k]).owner == owner;
                    assert(row_sound(self.by_entity@, self.by_owner[k]));
                    let e = self.by_owner[k].entities@[0];
                    assert(self.by_owner[k].entities@.contains(e));
                    assert(owned_by(self@, owner).contains(e));
                }
                if exists|e: Entity| owned_by(self@, owner).contains(e) {
                    let e = choose|e: Entity| owned_by(self@, owner).contains(e);
                    assert(self.by_entity@.contains_key(e.bits));
                    assert(listed(self.by_owner@, owner));
                    let k = choose|k: int|
                        0 <= k < self.by_owner@.len() && (#[trigger] self.by_owner@[k]).owner
                            == owner;
                    assert(self.by_owner[k].owner == owner);
                }
            }
        }
        r
    }

    /// The assigned units that are not alive.
    fn stale_entities(&self, live_entities: &Vec<Entity>) -> (r: Vec<Entity>)
        requires
            self.wf(),
        ensures
            forall|e: Entity|
                #[trigger] r@.contains(e) <==> self@.contains_key(e) && !live_entities@.contains(e),
    {
        let mut r: Vec<Entity> = Vec::new();
        let mut i: usize = 0;
        while i < self.by_owner.len()
            invariant
                i <= self.by_owner.len(),
                self.wf(),
                forall|e: Entity|
                    #[trigger] r@.contains(e) <==> !live_entities@.contains(e) && exists|k: int|
                        0 <= k < i && (#[trigger] self.by_owner[k]).entities@.contains(e),
            decreases self.by_owner.len() - i,
        {
            let ghost before = r@;
            let mut n: usize = 0;
            while n < self.by_owner[i].entities.len()
                invariant
                    i < self.by_owner.len(),
                    n <= self.by_owner[i as int].entities.len(),
                    forall|e: Entity|
                        #[trigger] r@.contains(e) <==> before.contains(e) || (
                        !live_entities@.contains(e) && exists|k: int|
                            0 <= k < n && #[trigger] self.by_owner[i as int].entities@[k] == e),
                decreases self.by_owner[i as int].entities.len() - n,
            {
                let e = self.by_owner[i].entities[n];
                let ghost earlier = r@;
                if !contains_entity(live_entities, e) {
                    r.push(e);
                }
                proof {
                    assert forall|x: Entity|
                        #[trigger] r@.contains(x) <==> before.contains(x) || (
                        !live_entities@.contains(x) && exists|k: int|
                            0 <= k < n + 1 && #[trigger] self.by_owner[i as int].entities@[k]
                                == x) by {
                        if r@.contains(x) {
                            let a = choose|a: int| 0 <= a < r@.len() && r@[a] == x;
                            if a < earlier.len() {
                                assert(earlier.contains(x));
                            } else {
                                assert(self.by_owner[i as int].entities@[n as int] == x);
                            }
                        }
                        if earlier.contains(x) {
                            let a = choose|a: int| 0 <= a < earlier.len() && earlier[a] == x;
                            assert(r@[a] == x);
                        }
                        if x == e && !live_entities@.contains(x) {
                            assert(r@[earlier.len() as int] == x);
                        }
                    }
                }
                n += 1;
            }
            proof {
                assert forall|e: Entity|
                    #[trigger] r@.contains(e) <==> !live_entities@.contains(e) && exists|k: int|
                        0 <= k < i + 1 && (#[trigger] self.by_owner[k]).entities@.contains(e) by {
                    let row = self.by_owner[i as int].entities@;
                    if r@.contains(e) {
                        if before.contains(e) {
                            let k = choose|k: int|
                                0 <= k < i && (#[trigger] self.by_owner[k]).entities@.contains(e);
                            assert(0 <= k < i + 1 && self.by_owner[k].entities@.contains(e));
                        } else {
                            let k = choose|k: int| 0 <= k < n && #[trigger] row[k] == e;
                            assert(self.by_owner[i as int].entities@.contains(e));
                        }
                    }
                    if !live_entities@.contains(e) && exists|k: int|
                        0 <= k < i + 1 && (#[trigger] self.by_owner[k]).entities@.contains(e) {
                        let k = choose|k: int|
                            0 <= k < i + 1 && (#[trigger] self.by_owner[k]).entities@.contains(e);
                        if k < i {
                            assert(before.contains(e));
                        } else {
                            let a = choose|a: int| 0 <= a < row.len() && row[a] == e;
                            assert(row[a] == e);
                        }
                    }
                }
            }
            i += 1;
        }
        proof {
            assert forall|e: Entity|
                #[trigger] r@.contains(e) <==> self@.contains_key(e) && !live_entities@.contains(
                    e,
                ) by {
                if r@.contains(e) {
                    let k = choose|k: int|
                        0 <= k < i && (#[trigger] self.by_owner[k]).entities@.contains(e);
                    assert(row_sound(self.by_entity@, self.by_owner[k]));
                }
                if self@.contains_key(e) {
                    assert(self.by_entity@.contains_key(e.bits));
                    assert(listed(self.by_owner@, self@[e].owner));
                    let k = choose|k: int|
                        0 <= k < self.by_owner@.len() && (#[trigger] self.by_owner@[k]).owner
                            == self@[e].owner;
                    assert(row_sound(self.by_entity@, self.by_owner[k]));
                    assert(self.by_owner[k].entities@.contains(e));
                }
            }
        }
        r
    }

    /// Frees every unit that is no longer alive, and no other.
    pub fn retain_live_entities(&mut self, live_entities: &Vec<Entity>)
        requires
            old(self).wf(),
        ensures
            final(self).wf(),
            final(self)@ == old(self)@.restrict(live_entities@.to_set()),
            final(self).conflict_count() == old(self).conflict_count(),
            final(self).visit_count() == old(self).visit_count(),
    {
        let ghost m = self@;
        let stale = self.stale_entities(live_entities);
        let mut n: usize = 0;
        while n < stale.len()
            invariant
                n <= stale.len(),
                self.wf(),
                self.conflict_count() == old(self).conflict_count(),
                self.visit_count() == old(self).visit_count(),
                forall|e: Entity|
                    #[trigger] self@.contains_key(e) <==> m.contains_key(e) && !(exists|k: int|
                        0 <= k < n && #[trigger] stale@[k] == e),
                forall|e: Entity| #[trigger] self@.contains_key(e) ==> self@[e] == m[e],
            decreases stale.len() - n,
        {
            self.release_entity(stale[n]);
            assert(stale@[n as int] == stale[n as int]);
            n += 1;
        }
        proof {
            assert forall|e: Entity|
                #[trigger] self@.contains_key(e) <==> m.contains_key(e) && live_entities@.contains(
                    e,
                ) by {
                if m.contains_key(e) && !live_entities@.contains(e) {
                    assert(stale@.contains(e));
                    let k = choose|k: int| 0 <= k < stale@.len() && stale@[k] == e;
                    assert(stale@[k] == e);
                }
                if m.contains_key(e) && live_entities@.contains(e) && !self@.contains_key(e) {
                    let k = choose|k: int| 0 <= k < n && #[trigger] stale@[k] == e;
                    assert(stale@.contains(e));
                }
            }
            assert(self@ =~= m.restrict(live_entities@.to_set()));
        }
    }
}

} // verus!
