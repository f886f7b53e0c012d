//! What holds of the campaigns under way and of the units that campaigns share.
use crate::campaign_laws::{lemma_stands_on, stands_on};
use crate::entity::{lemma_contains_sum, lemma_sorted_entities, Entity};
use crate::grid::{law_sorted_positions, read_before, sorted_positions, GridPosition};
use crate::islands::{Island, IslandId};
use crate::missions::{island_numbered, TransportPhase};
use crate::operations::{
    assigned_states, assigned_units, assignment_state, cargo_among, fighting_among, is_own,
    joined_parts, landed_among, own_among, own_transport, squad_cargo, squad_part, state_in,
    state_slot, unit_at, unit_of, with_state, AssignedTransportState, PartModel,
};
use crate::order::{
    lemma_lex_by, lemma_never_before, lemma_pushed, lemma_sort_prefix, stands_before,
};
use crate::snapshots::UnitModel;
use crate::squad::{squad_keys, squad_order, MissionPhase, MissionType, Squad};
use crate::units::{PlayerId, UnitType};
use vstd::prelude::*;

verus! {

/// The entity is the unit that the last entry for it describes.
pub open spec fn is_unit(units: Seq<UnitModel>, e: Entity, u: UnitModel) -> bool {
    exists|i: int|
        0 <= i < units.len() && #[trigger] units[i] == u && u.entity == e && forall|j: int|
            i < j < units.len() ==> (#[trigger] units[j]).entity != e
}

proof fn lemma_unit_at(units: Seq<UnitModel>, e: Entity, n: int)
    requires
        0 <= n <= units.len(),
    ensures
        match unit_at(units, e, n) {
            Some(i) => 0 <= i < n && units[i].entity == e && forall|j: int|
                i < j < n ==> (#[trigger] units[j]).entity != e,
            None => forall|j: int| 0 <= j < n ==> (#[trigger] units[j]).entity != e,
        },
    decreases n,
{
    if n > 0 && units[n - 1].entity != e {
        lemma_unit_at(units, e, n - 1);
    }
}

/// What is known of a unit is what the last entry for it says.
pub proof fn law_unit_is_as_last_listed(units: Seq<UnitModel>, e: Entity, u: UnitModel)
    ensures
        unit_of(units, e) == Some(u) <==> is_unit(units, e, u),
        unit_of(units, e) is None <==> forall|i: int|
            0 <= i < units.len() ==> (#[trigger] units[i]).entity != e,
{
    lemma_unit_at(units, e, units.len() as int);
    if let Some(i) = unit_at(units, e, units.len() as int) {
        assert(units[i].entity == e);
        if is_unit(units, e, u) {
            let k = choose|k: int|
                0 <= k < units.len() && #[trigger] units[k] == u && u.entity == e && forall|j: int|
                    k < j < units.len() ==> (#[trigger] units[j]).entity != e;
            if i < k {
                assert(units[k].entity != e);
            }
            if k < i {
                assert(units[i].entity != e);
            }
        }
    }
}

/// The unit is in the hold of the transport, as both say.
pub open spec fn is_in_hold(t: UnitModel, c: UnitModel) -> bool {
    c.transporting == Some(t.entity) && exists|i: int|
        0 <= i < t.loaded.len() && t.loaded[i] == c.entity
}

/// The unit counts as the transport's cargo. Until the transport leaves the pickup the unit may
/// also wait outside, though in no other transport; from then on it has to be in the hold; on the
/// way home nothing counts.
pub open spec fn goes_along(phase: MissionPhase, t: UnitModel, c: UnitModel) -> bool {
    if phase == MissionPhase::Forming || phase == MissionPhase::Transport(TransportPhase::Pickup) {
        c.transporting is None || is_in_hold(t, c)
    } else {
        (phase == MissionPhase::Transport(TransportPhase::Transit) || phase
            == MissionPhase::Transport(TransportPhase::Drop)) && is_in_hold(t, c)
    }
}

/// The squad has the player's unit at hand: as a member, as its transport's cargo, or landed and
/// not carried again.
pub open spec fn has_at_hand(
    units: Seq<UnitModel>,
    player: PlayerId,
    squad: Squad,
    e: Entity,
) -> bool {
    let u = unit_of(units, e);
    let t = own_transport(units, player, squad);
    &&& u is Some && u->0.faction == player
    &&& {
        ||| squad.members@.contains(e)
        ||| squad.delivered_cargo@.contains(e) && u->0.transporting is None
        ||| squad.cargo_entities@.contains(e) && t is Some && goes_along(
            squad.phase,
            unit_of(units, t->0)->0,
            u->0,
        )
    }
}

proof fn lemma_own_among(
    units: Seq<UnitModel>,
    player: PlayerId,
    list: Seq<Entity>,
    n: int,
    e: Entity,
)
    requires
        0 <= n <= list.len(),
    ensures
        own_among(units, player, list, n).contains(e) <==> is_own(units, player, e)
            && list.take(n).contains(e),
        landed_among(units, player, list, n).contains(e) <==> is_own(units, player, e) && unit_of(
            units,
            e,
        )->0.transporting is None && list.take(n).contains(e),
    decreases n,
{
    if n > 0 {
        lemma_own_among(units, player, list, n - 1, e);
        assert(list.take(n) =~= list.take(n - 1).push(list[n - 1]));
        lemma_pushed(list.take(n - 1), list[n - 1], e);
        lemma_pushed(own_among(units, player, list, n - 1), list[n - 1], e);
        lemma_pushed(landed_among(units, player, list, n - 1), list[n - 1], e);
    } else {
        assert(list.take(0) =~= Seq::<Entity>::empty());
    }
}

proof fn lemma_cargo_among(
    units: Seq<UnitModel>,
    player: PlayerId,
    phase: MissionPhase,
    transport: Entity,
    list: Seq<Entity>,
    n: int,
    e: Entity,
)
    requires
        0 <= n <= list.len(),
        unit_of(units, transport) is Some,
    ensures
        cargo_among(units, player, phase, transport, list, n).contains(e) <==> is_own(
            units,
            player,
            e,
        ) && goes_along(phase, unit_of(units, transport)->0, unit_of(units, e)->0) && list.take(
            n,
        ).contains(e),
    decreases n,
{
    if n > 0 {
        lemma_cargo_among(units, player, phase, transport, list, n - 1, e);
        assert(list.take(n) =~= list.take(n - 1).push(list[n - 1]));
        lemma_pushed(list.take(n - 1), list[n - 1], e);
        lemma_pushed(cargo_among(units, player, phase, transport, list, n - 1), list[n - 1], e);
        lemma_unit_at(units, transport, units.len() as int);
        lemma_unit_at(units, list[n - 1], units.len() as int);
        let t = unit_of(units, transport)->0;
        if unit_of(units, list[n - 1]) is Some {
            let c = unit_of(units, list[n - 1])->0;
            assert(t.entity == transport && c.entity == list[n - 1]);
            assert(t.loaded.contains(c.entity) <==> exists|i: int|
                0 <= i < t.loaded.len() && t.loaded[i] == c.entity);
        }
    } else {
        assert(list.take(0) =~= Seq::<Entity>::empty());
    }
}

proof fn lemma_assigned(units: Seq<UnitModel>, player: PlayerId, squad: Squad, e: Entity)
    ensures
        assigned_units(units, player, squad).contains(e) <==> has_at_hand(units, player, squad, e),
{
    let members = own_among(units, player, squad.members@, squad.members.len() as int);
    let t = own_transport(units, player, squad);
    let cargo = match t {
        Some(t) => cargo_among(
            units,
            player,
            squad.phase,
            t,
            squad.cargo_entities@,
            squad.cargo_entities.len() as int,
        ),
        None => Seq::empty(),
    };
    let landed = landed_among(
        units,
        player,
        squad.delivered_cargo@,
        squad.delivered_cargo.len() as int,
    );
    assert(squad.members@.take(squad.members.len() as int) =~= squad.members@);
    assert(squad.cargo_entities@.take(squad.cargo_entities.len() as int)
        =~= squad.cargo_entities@);
    assert(squad.delivered_cargo@.take(squad.delivered_cargo.len() as int)
        =~= squad.delivered_cargo@);
    lemma_own_among(units, player, squad.members@, squad.members.len() as int, e);
    lemma_own_among(units, player, squad.delivered_cargo@, squad.delivered_cargo.len() as int, e);
    if t is Some {
        lemma_cargo_among(
            units,
            player,
            squad.phase,
            t->0,
            squad.cargo_entities@,
            squad.cargo_entities.len() as int,
            e,
        );
    }
    lemma_contains_sum(members, cargo);
    lemma_contains_sum(members + cargo, landed);
    lemma_sorted_entities(members + cargo + landed);
}

proof fn lemma_fighting(
    units: Seq<UnitModel>,
    transport: Option<Entity>,
    list: Seq<Entity>,
    capture: bool,
    n: int,
    e: Entity,
)
    requires
        0 <= n <= list.len(),
    ensures
        fighting_among(units, transport, list, capture, n).contains(e) <==> {
            let u = unit_of(units, e);
            &&& list.take(n).contains(e)
            &&& transport != Some(e)
            &&& u is Some
            &&& u->0.unit_type != UnitType::Lander && u->0.unit_type
                != UnitType::TransportHelicopter && u->0.unit_type != UnitType::SupplyTruck
            &&& u->0.can_capture == capture
        },
    decreases n,
{
    if n > 0 {
        lemma_fighting(units, transport, list, capture, n - 1, e);
        assert(list.take(n) =~= list.take(n - 1).push(list[n - 1]));
        lemma_pushed(list.take(n - 1), list[n - 1], e);
        lemma_pushed(
            fighting_among(units, transport, list, capture, n - 1),
            list[n - 1],
            e,
        );
    } else {
        assert(list.take(0) =~= Seq::<Entity>::empty());
    }
}

/// The squad still works for its campaign: a transport squad while it forms or is on its way out
/// with a transport of the player, any other until it is done.
pub open spec fn works_on(units: Seq<UnitModel>, player: PlayerId, squad: Squad) -> bool {
    let own = own_transport(units, player, squad) is Some;
    if squad.mission_type != MissionType::Transport {
        squad.phase != MissionPhase::Completed
    } else {
        own && (squad.phase == MissionPhase::Forming || squad.phase == MissionPhase::Transport(
            TransportPhase::Pickup,
        ) || squad.phase == MissionPhase::Transport(TransportPhase::Transit) || squad.phase
            == MissionPhase::Transport(TransportPhase::Drop))
    }
}

/// A squad that still works for its campaign gives it its transport and all units at hand that do
/// not merely support others, those that capture apart from those that do not. A squad that does
/// not gives nobody.
pub proof fn law_squad_gives_whom_it_has(
    islands: Seq<Island>,
    units: Seq<UnitModel>,
    player: PlayerId,
    squad: Squad,
    e: Entity,
)
    ensures
        squad_part(islands, units, player, squad) matches Some(part) ==> {
            let t = own_transport(units, player, squad);
            let u = unit_of(units, e)->0;
            let fights = works_on(units, player, squad) && has_at_hand(units, player, squad, e) && t
                != Some(e) && u.unit_type != UnitType::Lander && u.unit_type
                != UnitType::TransportHelicopter && u.unit_type != UnitType::SupplyTruck;
            &&& part.transports.contains(e) <==> works_on(units, player, squad) && t == Some(e)
            &&& part.captures.contains(e) <==> fights && u.can_capture
            &&& part.combats.contains(e) <==> fights && !u.can_capture
        },
{
    if let Some(part) = squad_part(islands, units, player, squad) {
        let t = own_transport(units, player, squad);
        let list = assigned_units(units, player, squad);
        let n = list.len() as int;
        lemma_assigned(units, player, squad, e);
        assert(list.take(n) =~= list);
        lemma_fighting(units, t, list, true, n, e);
        lemma_fighting(units, t, list, false, n, e);
        if t is Some {
            assert(seq![t->0].contains(e) <==> t->0 == e) by {
                assert(seq![t->0][0] == t->0);
            }
        }
    }
}

/// The transport of a squad counts only while it is a unit of the player.
pub proof fn law_only_own_transports_count(units: Seq<UnitModel>, player: PlayerId, squad: Squad)
    ensures
        ({
            let r = own_transport(units, player, squad);
            let e = squad.transport_entity;
            &&& r is Some <==> e is Some && unit_of(units, e->0) is Some && unit_of(
                units,
                e->0,
            )->0.faction == player
            &&& r is Some ==> r == e
        }),
{
}

/// The first island with the number is the one that is found.
pub proof fn lemma_numbered(islands: Seq<Island>, id: IslandId, i: int)
    requires
        0 <= i <= islands.len(),
        forall|l: int| 0 <= l < i ==> (#[trigger] islands[l]).id != id,
    ensures
        match island_numbered(islands, id, i) {
            Some(h) => 0 <= h < islands.len() && islands[h].id == id && forall|l: int|
                0 <= l < h ==> (#[trigger] islands[l]).id != id,
            None => forall|l: int| 0 <= l < islands.len() ==> (#[trigger] islands[l]).id != id,
        },
    decreases islands.len() - i,
{
    if i < islands.len() && islands[i].id != id {
        lemma_numbered(islands, id, i + 1);
    }
}

/// A squad contributes to the island that it names, or else to the one that its target lies on. It
/// goes for its target, or else for the first tile of the island in reading order. It counts as
/// forming only as a transport squad with a transport of the player's, and its phase counts only
/// with one.
#[verifier::rlimit(50)]
pub proof fn law_squad_contributes_to_its_island(
    islands: Seq<Island>,
    units: Seq<UnitModel>,
    player: PlayerId,
    squad: Squad,
)
    ensures
        squad_part(islands, units, player, squad) matches Some(part) ==> {
            let own = own_transport(units, player, squad) is Some;
            &&& squad.target_island is Some ==> squad.target_island == Some(part.island_id)
            &&& squad.target_island is None ==> squad.target is Some && stands_on(
                islands,
                squad.target->0,
                part.island_id,
            )
            &&& squad.target is Some ==> squad.target == Some(part.target_position)
            &&& squad.target is None ==> exists|h: int|
                {
                    &&& 0 <= h < islands.len()
                    &&& (#[trigger] islands[h]).id == part.island_id
                    &&& islands[h].tiles@.contains(part.target_position)
                    &&& forall|p: GridPosition| #[trigger]
                        islands[h].tiles@.contains(p) ==> !read_before(p, part.target_position)
                }
            &&& part.is_forming <==> own && squad.mission_type == MissionType::Transport
                && squad.phase == MissionPhase::Forming
            &&& part.transport_phase is Some <==> own && squad.phase is Transport
            &&& part.transport_phase is Some ==> squad.phase == MissionPhase::Transport(
                part.transport_phase->0,
            )
        },
{
    if let Some(part) = squad_part(islands, units, player, squad) {
        if squad.target_island is None && squad.target is Some {
            lemma_stands_on(islands, squad.target->0, part.island_id, 0);
        }
        lemma_numbered(islands, part.island_id, 0);
        if squad.target is None {
            let h = island_numbered(islands, part.island_id, 0)->0;
            let tiles = islands[h].tiles@;
            law_sorted_positions(tiles);
            let sorted = sorted_positions(tiles);
            assert(sorted.contains(sorted[0]));
            assert(islands[h].id == part.island_id);
            assert forall|p: GridPosition| #[trigger] tiles.contains(p) implies !read_before(
                p,
                sorted[0],
            ) by {
                assert(sorted.contains(p));
                let i = choose|i: int| 0 <= i < sorted.len() && sorted[i] == p;
                if i > 0 {
                    assert(read_before(sorted[0], sorted[i]));
                }
            }
        }
    }
}

/// A squad contributes exactly if it has something of the player's, its island is known and it has
/// a tile to go for.
pub proof fn law_squad_contributes_if_it_can(
    islands: Seq<Island>,
    units: Seq<UnitModel>,
    player: PlayerId,
    squad: Squad,
    h: int,
)
    ensures
        (own_transport(units, player, squad) is None && forall|e: Entity|
            !#[trigger] has_at_hand(units, player, squad, e)) ==> squad_part(
            islands,
            units,
            player,
            squad,
        ) is None,
        (own_transport(units, player, squad) is Some || exists|e: Entity| #[trigger]
            has_at_hand(units, player, squad, e)) && 0 <= h < islands.len()
            && islands[h].tiles.len() > 0 && (squad.target_island == Some(islands[h].id)
            && squad.target is Some || (squad.target_island is None && squad.target is Some
            && stands_on(islands, squad.target->0, islands[h].id))) ==> squad_part(
            islands,
            units,
            player,
            squad,
        ) is Some,
{
    let list = assigned_units(units, player, squad);
    if list.len() > 0 {
        assert(list.contains(list[0]));
        lemma_assigned(units, player, squad, list[0]);
    }
    if exists|e: Entity| #[trigger] has_at_hand(units, player, squad, e) {
        let e = choose|e: Entity| #[trigger] has_at_hand(units, player, squad, e);
        lemma_assigned(units, player, squad, e);
        assert(list.len() > 0);
    }
    if 0 <= h < islands.len() {
        lemma_numbered(islands, islands[h].id, 0);
        if squad.target is Some {
            lemma_stands_on(islands, squad.target->0, islands[h].id, 0);
        }
    }
}

/// Cargo is told of exactly by the squads that carry it out: those with a transport of the
/// player's on its way out and an island to go to. It is that transport's cargo, where the squad
/// says.
pub proof fn law_cargo_is_what_transports_carry_out(
    islands: Seq<Island>,
    units: Seq<UnitModel>,
    player: PlayerId,
    squad: Squad,
    e: Entity,
)
    ensures
        ({
            let r = squad_cargo(islands, units, player, squad);
            let t = own_transport(units, player, squad);
            let part = squad_part(islands, units, player, squad);
            &&& r is Some <==> part is Some && t is Some && squad.phase is Transport && works_on(
                units,
                player,
                squad,
            )
            &&& r is Some ==> {
                &&& r->0.island_id == part->0.island_id
                &&& Some(r->0.transport_entity) == t
                &&& squad.phase == MissionPhase::Transport(r->0.phase)
                &&& r->0.pickup_position == squad.pickup_position
                &&& r->0.drop_position == squad.drop_position
                &&& r->0.cargo_entities.contains(e) <==> squad.cargo_entities@.contains(e) && is_own(
                    units,
                    player,
                    e,
                ) && goes_along(squad.phase, unit_of(units, t->0)->0, unit_of(units, e)->0)
            }
        }),
{
    if let Some(cargo) = squad_cargo(islands, units, player, squad) {
        let list = squad.cargo_entities@;
        let t = own_transport(units, player, squad)->0;
        let n = list.len() as int;
        assert(list.take(n) =~= list);
        lemma_cargo_among(units, player, squad.phase, t, list, n, e);
        lemma_sorted_entities(cargo_among(units, player, squad.phase, t, list, n));
    }
}

/// What counts of a transport's duties: on its way out counts before forming, that before on its
/// way home, and that before anything else.
pub open spec fn counts_before(a: AssignedTransportState, b: AssignedTransportState) -> bool {
    duty(a) < duty(b)
}

/// The place of a duty among those of one transport.
pub open spec fn duty(s: AssignedTransportState) -> int {
    match s {
        AssignedTransportState::Phase(TransportPhase::Return, _, _) => 2,
        AssignedTransportState::Phase(_, _, _) => 0,
        AssignedTransportState::Forming(_, _) => 1,
        AssignedTransportState::Other => 3,
    }
}

proof fn lemma_state_slot(list: Seq<(Entity, AssignedTransportState)>, e: Entity, i: int)
    requires
        0 <= i <= list.len(),
        forall|j: int| 0 <= j < i ==> (#[trigger] list[j]).0 != e,
    ensures
        match state_slot(list, e, i) {
            Some(k) => i <= k < list.len() && list[k].0 == e && forall|j: int|
                0 <= j < k ==> (#[trigger] list[j]).0 != e,
            None => forall|j: int| 0 <= j < list.len() ==> (#[trigger] list[j]).0 != e,
        },
    decreases list.len() - i,
{
    if i < list.len() && list[i].0 != e {
        lemma_state_slot(list, e, i + 1);
    }
}

proof fn lemma_with_state(
    list: Seq<(Entity, AssignedTransportState)>,
    t: Entity,
    s: AssignedTransportState,
    e: Entity,
)
    ensures
        ({
            let before = state_in(list, e);
            let after = state_in(with_state(list, t, s), e);
            &&& t != e ==> after == before
            &&& t == e && before is None ==> after == Some(s)
            &&& t == e && before is Some && counts_before(s, before->0) ==> after == Some(s)
            &&& t == e && before is Some && !counts_before(s, before->0) ==> after == before
        }),
{
    let new = with_state(list, t, s);
    lemma_state_slot(list, e, 0);
    lemma_state_slot(list, t, 0);
    lemma_state_slot(new, e, 0);
    if let Some(k) = state_slot(list, e, 0) {
        assert(new[k].0 == e);
        let m = state_slot(new, e, 0)->0;
        if m < k {
            assert(list[m].0 != e);
            assert(new[m].0 == list[m].0);
        }
        if k < m {
            assert(new[k].0 != e);
        }
    } else if t != e {
        if let Some(m) = state_slot(new, e, 0) {
            if m < list.len() {
                assert(list[m].0 != e);
            }
        }
    } else {
        assert(new[list.len() as int] == (t, s));
        let m = state_slot(new, e, 0)->0;
        if m < list.len() {
            assert(list[m].0 != e);
        }
        if list.len() < m {
            assert(new[list.len() as int].0 != e);
        }
    }
}

/// Squad `k` of the order has the player's unit as its transport.
pub open spec fn commands(
    squads: Seq<Squad>,
    units: Seq<UnitModel>,
    player: PlayerId,
    k: int,
    e: Entity,
) -> bool {
    own_transport(units, player, squads[squad_order(squads)[k]]) == Some(e)
}

/// Of the duties that squads give one transport that counts which comes before all others; of
/// equal ones that of the first squad. A transport without a squad has no duty.
#[verifier::rlimit(50)]
pub proof fn law_transport_has_its_first_duty(
    squads: Seq<Squad>,
    units: Seq<UnitModel>,
    player: PlayerId,
    n: int,
    e: Entity,
)
    requires
        0 <= n <= squads.len(),
    ensures
        ({
            let r = state_in(assigned_states(squads, units, player, n), e);
            &&& r is None <==> forall|k: int|
                0 <= k < n ==> !#[trigger] commands(squads, units, player, k, e)
            &&& r is Some ==> exists|k: int|
                {
                    &&& 0 <= k < n
                    &&& #[trigger] commands(squads, units, player, k, e)
                    &&& r->0 == assignment_state(units, squads[squad_order(squads)[k]], e)
                    &&& forall|j: int|
                        0 <= j < n && #[trigger] commands(squads, units, player, j, e) ==> {
                            let other = assignment_state(
                                units,
                                squads[squad_order(squads)[j]],
                                e,
                            );
                            &&& !counts_before(other, r->0)
                            &&& j < k ==> counts_before(r->0, other)
                        }
                }
        }),
    decreases n,
{
    if n > 0 {
        law_transport_has_its_first_duty(squads, units, player, n - 1, e);
        let rest = assigned_states(squads, units, player, n - 1);
        let squad = squads[squad_order(squads)[n - 1]];
        let before = state_in(rest, e);
        if let Some(t) = own_transport(units, player, squad) {
            lemma_with_state(rest, t, assignment_state(units, squad, t), e);
        }
        let r = state_in(assigned_states(squads, units, player, n), e);
        if commands(squads, units, player, n - 1, e) {
            let s = assignment_state(units, squad, e);
            if before is None || counts_before(s, before->0) {
                assert(r == Some(s));
            }
        }
        if r is Some && r == before && !(commands(squads, units, player, n - 1, e)
            && before is None) {
            let k = choose|k: int|
                {
                    &&& 0 <= k < n - 1
                    &&& #[trigger] commands(squads, units, player, k, e)
                    &&& before->0 == assignment_state(units, squads[squad_order(squads)[k]], e)
                    &&& forall|j: int|
                        0 <= j < n - 1 && #[trigger] commands(squads, units, player, j, e) ==> {
                            let other = assignment_state(
                                units,
                                squads[squad_order(squads)[j]],
                                e,
                            );
                            &&& !counts_before(other, before->0)
                            &&& j < k ==> counts_before(before->0, other)
                        }
                };
            assert(commands(squads, units, player, k, e));
        }
    } else {
        lemma_state_slot(Seq::<(Entity, AssignedTransportState)>::empty(), e, 0);
    }
}

/// The duty that a squad gives its transport tells the squad's phase and island, and whether all
/// that the transport carries is the squad's cargo and says that it is carried.
pub proof fn law_duty_tells_of_the_hold(units: Seq<UnitModel>, squad: Squad, transport: Entity)
    ensures
        ({
            let t = unit_of(units, transport);
            let assigned = t is Some && forall|i: int|
                0 <= i < t->0.loaded.len() ==> {
                    let c = #[trigger] t->0.loaded[i];
                    squad.cargo_entities@.contains(c) && unit_of(units, c) is Some && unit_of(
                        units,
                        c,
                    )->0.transporting == Some(transport)
                };
            match assignment_state(units, squad, transport) {
                AssignedTransportState::Phase(phase, island, own) => squad.phase
                    == MissionPhase::Transport(phase) && island == squad.target_island && own
                    == assigned,
                AssignedTransportState::Forming(island, own) => squad.phase == MissionPhase::Forming
                    && island == squad.target_island && own == assigned,
                AssignedTransportState::Other => squad.phase != MissionPhase::Forming
                    && !(squad.phase is Transport),
            }
        }),
{
}

/// Squads are gone through by their numbers.
pub proof fn law_squads_come_by_number(squads: Seq<Squad>)
    ensures
        ({
            let order = squad_order(squads);
            &&& order.len() == squads.len()
            &&& forall|k: int| 0 <= k < squads.len() ==> #[trigger] order.contains(k)
            &&& forall|i: int, j: int|
                0 <= i < j < order.len() ==> squads[#[trigger] order[i]].id.0
                    <= squads[#[trigger] order[j]].id.0
        }),
{
    let keys = squad_keys(squads);
    let order = squad_order(squads);
    lemma_sort_prefix(keys, keys.len() as int);
    assert forall|i: int, j: int| 0 <= i < j < order.len() implies squads[#[trigger] order[i]].id.0
        <= squads[#[trigger] order[j]].id.0 by {
        assert(stands_before(keys, order[i], order[j]));
        lemma_never_before(keys, order[i], order[j]);
        if squads[order[j]].id.0 < squads[order[i]].id.0 {
            lemma_lex_by(keys[order[j]], keys[order[i]], 0);
        }
    }
}

/// The phase is one on the way out.
pub open spec fn is_outbound(p: TransportPhase) -> bool {
    p != TransportPhase::Return
}

/// A campaign's phase is that of its first contribution on the way out; if none is, that of the
/// first contribution with a phase.
#[verifier::rlimit(50)]
pub proof fn law_campaign_is_as_far_as_its_first_transport(
    parts: Seq<PartModel>,
    id: IslandId,
    n: int,
)
    requires
        0 <= n <= parts.len(),
    ensures
        joined_parts(parts, id, n) matches Some(o) ==> {
            let phase = o.transport_phase;
            &&& phase is None <==> forall|i: int|
                0 <= i < n && (#[trigger] parts[i]).island_id == id
                    ==> parts[i].transport_phase is None
            &&& phase is Some ==> exists|k: int|
                {
                    &&& 0 <= k < n
                    &&& (#[trigger] parts[k]).island_id == id
                    &&& parts[k].transport_phase == phase
                    &&& is_outbound(phase->0) ==> forall|i: int|
                        0 <= i < k && (#[trigger] parts[i]).island_id == id
                            && parts[i].transport_phase is Some ==> !is_outbound(
                            parts[i].transport_phase->0,
                        )
                    &&& !is_outbound(phase->0) ==> forall|i: int|
                        0 <= i < n && (#[trigger] parts[i]).island_id == id
                            && parts[i].transport_phase is Some ==> !is_outbound(
                            parts[i].transport_phase->0,
                        )
                }
        },
        joined_parts(parts, id, n) is None ==> forall|i: int|
            0 <= i < n ==> (#[trigger] parts[i]).island_id != id,
    decreases n,
{
    if n > 0 {
        law_campaign_is_as_far_as_its_first_transport(parts, id, n - 1);
        let rest = joined_parts(parts, id, n - 1);
        let part = parts[n - 1];
        if rest is Some {
            let before = rest->0.transport_phase;
            if before is Some {
                let k = choose|k: int|
                    {
                        &&& 0 <= k < n - 1
                        &&& (#[trigger] parts[k]).island_id == id
                        &&& parts[k].transport_phase == before
                        &&& is_outbound(before->0) ==> forall|i: int|
                            0 <= i < k && (#[trigger] parts[i]).island_id == id
                                && parts[i].transport_phase is Some ==> !is_outbound(
                                parts[i].transport_phase->0,
                            )
                        &&& !is_outbound(before->0) ==> forall|i: int|
                            0 <= i < n - 1 && (#[trigger] parts[i]).island_id == id
                                && parts[i].transport_phase is Some ==> !is_outbound(
                                parts[i].transport_phase->0,
                            )
                    };
                assert(parts[k].island_id == id);
            }
        }
        if part.island_id == id {
            let o = joined_parts(parts, id, n)->0;
            assert(parts[n - 1].island_id == id);
            if o.transport_phase is None {
                assert(part.transport_phase is None);
            }
        }
    }
}

} // verus!
