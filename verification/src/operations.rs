//! The campaigns that squads are carrying out already.
use crate::entity::{
    ascending, contains_entity, lemma_contains_sum, lemma_sorted_entities, push_entities,
    sort_entities, sorted_entities, Entity,
};
use crate::eta::{is_support_only, sorted_island_tiles, supports_only};
use crate::grid::{read_before, reads_before, sorted_positions, GridPosition};
use crate::island_campaign::{operation_models, ExistingCampaignOperation, OperationModel};
use crate::islands::{Island, IslandId, IslandMap};
use crate::missions::{
    find_island_holding, find_island_numbered, island_holding, island_numbered, TransportPhase,
};
use crate::order::{
    gather, key_views, lemma_lex_irreflexive, lemma_sort_prefix, sort_order, stable_order,
    stands_before,
};
use crate::snapshots::{models, UnitModel, UnitSnapshot};
use crate::squad::{sort_squads, squad_order, MissionPhase, MissionType, Squad, SquadManager};
use crate::units::PlayerId;
use vstd::prelude::*;

verus! {

/// The last of the first `n` units that is the entity.
pub open spec fn unit_at(units: Seq<UnitModel>, e: Entity, n: int) -> Option<int>
    decreases n,
{
    if n <= 0 {
        None
    } else if units[n - 1].entity == e {
        Some(n - 1)
    } else {
        unit_at(units, e, n - 1)
    }
}

/// The unit that the entity is.
pub open spec fn unit_of(units: Seq<UnitModel>, e: Entity) -> Option<UnitModel> {
    match unit_at(units, e, units.len() as int) {
        Some(i) => Some(units[i]),
        None => None,
    }
}

/// The entity is a unit of the player.
pub open spec fn is_own(units: Seq<UnitModel>, player: PlayerId, e: Entity) -> bool {
    unit_of(units, e) matches Some(u) && u.faction == player
}

/// Finds the unit that the entity is.
pub fn find_unit(units: &Vec<UnitSnapshot>, e: Entity) -> (r: Option<usize>)
    ensures
        r is Some <==> unit_of(models(units@), e) is Some,
        r matches Some(i) ==> i < units.len() && unit_of(models(units@), e) == Some(
            units[i as int]@,
        ) && units[i as int].entity == e,
{
    let ghost all = models(units@);
    let mut n: usize = units.len();
    while n > 0
        invariant
            n <= units.len(),
            all == models(units@),
            unit_at(all, e, all.len() as int) == unit_at(all, e, n as int),
        decreases n,
    {
        assert(all[n - 1] == units[n - 1]@);
        if units[n - 1].entity == e {
            return Some(n - 1);
        }
        n -= 1;
    }
    None
}

/// Whether the entity is a unit of the player.
pub fn owns(units: &Vec<UnitSnapshot>, player: PlayerId, e: Entity) -> (r: bool)
    ensures
        r == is_own(models(units@), player, e),
{
    match find_unit(units, e) {
        Some(i) => units[i].faction == player,
        None => false,
    }
}

/// A transport mission that is still under way to its island.
pub open spec fn is_live(phase: TransportPhase) -> bool {
    phase == TransportPhase::Pickup || phase == TransportPhase::Transit || phase
        == TransportPhase::Drop
}

/// Whether a transport mission is still under way to its island.
pub fn is_live_transport_phase(phase: TransportPhase) -> (r: bool)
    ensures
        r == is_live(phase),
{
    match phase {
        TransportPhase::Pickup | TransportPhase::Transit | TransportPhase::Drop => true,
        TransportPhase::Return => false,
    }
}

/// What a transport is assigned to: the island, and whether all that it carries belongs to the
/// assignment.
#[derive(Clone, Copy, Debug, PartialEq, Eq, Structural)]
pub enum AssignedTransportState {
    Forming(Option<IslandId>, bool),
    Phase(TransportPhase, Option<IslandId>, bool),
    Other,
}

/// Which of two assignments of one transport counts: the lower rank.
pub open spec fn state_rank(state: AssignedTransportState) -> u8 {
    match state {
        AssignedTransportState::Phase(phase, _, _) => if is_live(phase) {
            0
        } else {
            2
        },
        AssignedTransportState::Forming(_, _) => 1,
        AssignedTransportState::Other => 3,
    }
}

/// Which of two assignments of one transport counts: the lower rank.
pub fn assigned_transport_state_rank(state: AssignedTransportState) -> (r: u8)
    ensures
        r == state_rank(state),
{
    match state {
        AssignedTransportState::Phase(phase, _, _) => if is_live_transport_phase(phase) {
            0
        } else {
            2
        },
        AssignedTransportState::Forming(_, _) => 1,
        AssignedTransportState::Other => 3,
    }
}

/// The transport of the squad, if it is the player's.
pub open spec fn own_transport(units: Seq<UnitModel>, player: PlayerId, squad: Squad) -> Option<
    Entity,
> {
    match squad.transport_entity {
        Some(e) => if is_own(units, player, e) {
            Some(e)
        } else {
            None
        },
        None => None,
    }
}

fn find_own_transport(units: &Vec<UnitSnapshot>, player: PlayerId, squad: &Squad) -> (r: Option<
    Entity,
>)
    ensures
        r == own_transport(models(units@), player, *squad),
{
    match squad.transport_entity {
        Some(e) => if owns(units, player, e) {
            Some(e)
        } else {
            None
        },
        None => None,
    }
}

/// The unit says that the transport carries it.
pub open spec fn says_carried(units: Seq<UnitModel>, cargo: Entity, transport: Entity) -> bool {
    unit_of(units, cargo) matches Some(u) && u.transporting == Some(transport)
}

/// The first `n` units in the hold all belong to the squad's cargo and say that they are carried.
pub open spec fn hold_is_assigned(
    units: Seq<UnitModel>,
    squad: Squad,
    transport: Entity,
    loaded: Seq<Entity>,
) -> bool {
    forall|i: int|
        0 <= i < loaded.len() ==> squad.cargo_entities@.contains(#[trigger] loaded[i])
            && says_carried(units, loaded[i], transport)
}

/// What the squad assigns its transport to.
pub open spec fn assignment_state(
    units: Seq<UnitModel>,
    squad: Squad,
    transport: Entity,
) -> AssignedTransportState {
    let assigned = unit_of(units, transport) matches Some(u) && hold_is_assigned(
        units,
        squad,
        transport,
        u.loaded,
    );
    match squad.phase {
        MissionPhase::Transport(phase) => AssignedTransportState::Phase(
            phase,
            squad.target_island,
            assigned,
        ),
        MissionPhase::Forming => AssignedTransportState::Forming(squad.target_island, assigned),
        _ => AssignedTransportState::Other,
    }
}

/// The place of the entity in the list from index `i` on.
pub open spec fn state_slot(
    list: Seq<(Entity, AssignedTransportState)>,
    e: Entity,
    i: int,
) -> Option<int>
    decreases list.len() - i,
{
    if i >= list.len() {
        None
    } else if list[i].0 == e {
        Some(i)
    } else {
        state_slot(list, e, i + 1)
    }
}

/// What the list says of the entity.
pub open spec fn state_in(
    list: Seq<(Entity, AssignedTransportState)>,
    e: Entity,
) -> Option<AssignedTransportState> {
    match state_slot(list, e, 0) {
        Some(i) => Some(list[i].1),
        None => None,
    }
}

/// The list after one more assignment: of two for one transport the lower rank stays, and the
/// earlier one where they are equal.
pub open spec fn with_state(
    list: Seq<(Entity, AssignedTransportState)>,
    e: Entity,
    state: AssignedTransportState,
) -> Seq<(Entity, AssignedTransportState)> {
    match state_slot(list, e, 0) {
        Some(i) => if state_rank(state) < state_rank(list[i].1) {
            list.update(i, (e, state))
        } else {
            list
        },
        None => list.push((e, state)),
    }
}

/// What the first `n` squads of the order assign the player's transports to.
pub open spec fn assigned_states(
    squads: Seq<Squad>,
    units: Seq<UnitModel>,
    player: PlayerId,
    n: int,
) -> Seq<(Entity, AssignedTransportState)>
    decreases n,
{
    if n <= 0 {
        Seq::empty()
    } else {
        let rest = assigned_states(squads, units, player, n - 1);
        let squad = squads[squad_order(squads)[n - 1]];
        match own_transport(units, player, squad) {
            Some(e) => with_state(rest, e, assignment_state(units, squad, e)),
            None => rest,
        }
    }
}

fn find_state_slot(list: &Vec<(Entity, AssignedTransportState)>, e: Entity) -> (r: Option<usize>)
    ensures
        r is Some <==> state_slot(list@, e, 0) is Some,
        r matches Some(i) ==> i < list.len() && state_slot(list@, e, 0) == Some(i as int),
{
    let mut i: usize = 0;
    while i < list.len()
        invariant
            i <= list.len(),
            state_slot(list@, e, 0) == state_slot(list@, e, i as int),
        decreases list.len() - i,
    {
        if list[i].0 == e {
            return Some(i);
        }
        i += 1;
    }
    None
}

/// What the list says of the entity.
pub fn find_state(list: &Vec<(Entity, AssignedTransportState)>, e: Entity) -> (r: Option<
    AssignedTransportState,
>)
    ensures
        r == state_in(list@, e),
{
    match find_state_slot(list, e) {
        Some(i) => Some(list[i].1),
        None => None,
    }
}

fn carried(units: &Vec<UnitSnapshot>, cargo: Entity, transport: Entity) -> (r: bool)
    ensures
        r == says_carried(models(units@), cargo, transport),
{
    match find_unit(units, cargo) {
        Some(i) => match units[i].transporting {
            Some(t) => t == transport,
            None => false,
        },
        None => false,
    }
}

fn hold_assigned(
    units: &Vec<UnitSnapshot>,
    squad: &Squad,
    transport: Entity,
    loaded: &Vec<Entity>,
) -> (r: bool)
    ensures
        r == hold_is_assigned(models(units@), *squad, transport, loaded@),
{
    let mut n: usize = 0;
    while n < loaded.len()
        invariant
            n <= loaded.len(),
            forall|i: int|
                0 <= i < n ==> squad.cargo_entities@.contains(#[trigger] loaded[i]) && says_carried(
                    models(units@),
                    loaded[i],
                    transport,
                ),
        decreases loaded.len() - n,
    {
        if !contains_entity(&squad.cargo_entities, loaded[n]) || !carried(
            units,
            loaded[n],
            transport,
        ) {
            assert(!(squad.cargo_entities@.contains(loaded@[n as int]) && says_carried(
                models(units@),
                loaded@[n as int],
                transport,
            )));
            return false;
        }
        n += 1;
    }
    true
}

fn squad_assignment_state(units: &Vec<UnitSnapshot>, squad: &Squad, transport: Entity) -> (r:
    AssignedTransportState)
    ensures
        r == assignment_state(models(units@), *squad, transport),
{
    let assigned: bool = match find_unit(units, transport) {
        Some(i) => hold_assigned(units, squad, transport, &units[i].loaded_cargo_entities),
        None => false,
    };
    match squad.phase {
        MissionPhase::Transport(phase) => AssignedTransportState::Phase(
            phase,
            squad.target_island,
            assigned,
        ),
        MissionPhase::Forming => AssignedTransportState::Forming(squad.target_island, assigned),
        _ => AssignedTransportState::Other,
    }
}

/// What the squads assign the player's transports to.
pub fn collect_assigned_transport_phases(
    manager: &SquadManager,
    units: &Vec<UnitSnapshot>,
    player_id: PlayerId,
) -> (r: Vec<(Entity, AssignedTransportState)>)
    ensures
        r@ == assigned_states(
            manager.squads@,
            models(units@),
            player_id,
            manager.squads.len() as int,
        ),
{
    let order = sort_squads(&manager.squads);
    let mut r: Vec<(Entity, AssignedTransportState)> = Vec::new();
    let mut n: usize = 0;
    while n < order.len()
        invariant
            n <= order.len(),
            order.len() == manager.squads.len(),
            forall|i: int| 0 <= i < order.len() ==> #[trigger] order[i] == squad_order(
                manager.squads@,
            )[i],
            forall|i: int| 0 <= i < order.len() ==> #[trigger] order[i] < manager.squads.len(),
            r@ == assigned_states(manager.squads@, models(units@), player_id, n as int),
        decreases order.len() - n,
    {
        let squad = &manager.squads[order[n]];
        assert(*squad == manager.squads@[squad_order(manager.squads@)[n as int]]);
        if let Some(e) = find_own_transport(units, player_id, squad) {
            let state = squad_assignment_state(units, squad, e);
            match find_state_slot(&r, e) {
                Some(i) => {
                    if assigned_transport_state_rank(state) < assigned_transport_state_rank(r[i].1) {
                        r.set(i, (e, state));
                    }
                },
                None => {
                    r.push((e, state));
                },
            }
        }
        n += 1;
    }
    r
}

/// The transport and the unit agree that the unit is aboard.
pub open spec fn physically_loaded(units: Seq<UnitModel>, transport: Entity, cargo: Entity) -> bool {
    match (unit_of(units, transport), unit_of(units, cargo)) {
        (Some(t), Some(c)) => c.transporting == Some(transport) && t.loaded.contains(cargo),
        _ => false,
    }
}

/// The unit counts as cargo of the transport: while it is being fetched it may stand anywhere
/// outside other transports, afterwards it has to be aboard.
pub open spec fn is_associated(
    phase: MissionPhase,
    units: Seq<UnitModel>,
    transport: Entity,
    cargo: Entity,
) -> bool {
    match (unit_of(units, transport), unit_of(units, cargo)) {
        (Some(t), Some(c)) => match phase {
            MissionPhase::Forming => c.transporting is None || physically_loaded(
                units,
                transport,
                cargo,
            ),
            MissionPhase::Transport(p) => match p {
                TransportPhase::Pickup => c.transporting is None || physically_loaded(
                    units,
                    transport,
                    cargo,
                ),
                TransportPhase::Transit | TransportPhase::Drop => physically_loaded(
                    units,
                    transport,
                    cargo,
                ),
                TransportPhase::Return => false,
            },
            _ => false,
        },
        _ => false,
    }
}

/// Whether the unit counts as cargo of the transport.
pub fn transport_cargo_is_associated(
    phase: MissionPhase,
    transport: Entity,
    cargo: Entity,
    units: &Vec<UnitSnapshot>,
) -> (r: bool)
    ensures
        r == is_associated(phase, models(units@), transport, cargo),
{
    let t = match find_unit(units, transport) {
        Some(i) => i,
        None => {
            return false;
        },
    };
    let c = match find_unit(units, cargo) {
        Some(i) => i,
        None => {
            return false;
        },
    };
    let says: bool = match units[c].transporting {
        Some(e) => e == transport,
        None => false,
    };
    let loaded: bool = says && contains_entity(&units[t].loaded_cargo_entities, cargo);
    let outside: bool = units[c].transporting.is_none();
    match phase {
        MissionPhase::Forming => outside || loaded,
        MissionPhase::Transport(p) => match p {
            TransportPhase::Pickup => outside || loaded,
            TransportPhase::Transit | TransportPhase::Drop => loaded,
            TransportPhase::Return => false,
        },
        _ => false,
    }
}

/// Own units among the first `n` of the list.
pub open spec fn own_among(
    units: Seq<UnitModel>,
    player: PlayerId,
    list: Seq<Entity>,
    n: int,
) -> Seq<Entity>
    decreases n,
{
    if n <= 0 {
        Seq::empty()
    } else if is_own(units, player, list[n - 1]) {
        own_among(units, player, list, n - 1).push(list[n - 1])
    } else {
        own_among(units, player, list, n - 1)
    }
}

/// Own units among the first `n` of the list that count as cargo of the transport.
pub open spec fn cargo_among(
    units: Seq<UnitModel>,
    player: PlayerId,
    phase: MissionPhase,
    transport: Entity,
    list: Seq<Entity>,
    n: int,
) -> Seq<Entity>
    decreases n,
{
    if n <= 0 {
        Seq::empty()
    } else if is_own(units, player, list[n - 1]) && is_associated(
        phase,
        units,
        transport,
        list[n - 1],
    ) {
        cargo_among(units, player, phase, transport, list, n - 1).push(list[n - 1])
    } else {
        cargo_among(units, player, phase, transport, list, n - 1)
    }
}

/// Own units among the first `n` of the list that no transport carries.
pub open spec fn landed_among(
    units: Seq<UnitModel>,
    player: PlayerId,
    list: Seq<Entity>,
    n: int,
) -> Seq<Entity>
    decreases n,
{
    if n <= 0 {
        Seq::empty()
    } else if unit_of(units, list[n - 1]) matches Some(u) && u.faction == player
        && u.transporting is None {
        landed_among(units, player, list, n - 1).push(list[n - 1])
    } else {
        landed_among(units, player, list, n - 1)
    }
}

/// The own units that the squad has at hand: its members, what counts as its cargo, and what it
/// landed.
pub open spec fn assigned_units(units: Seq<UnitModel>, player: PlayerId, squad: Squad) -> Seq<
    Entity,
> {
    let members = own_among(units, player, squad.members@, squad.members.len() as int);
    let cargo = match own_transport(units, player, squad) {
        Some(t) => cargo_among(
            units,
            player,
            squad.phase,
            t,
            squad.cargo_entities@,
            squad.cargo_entities.len() as int,
        ),
        None => Seq::empty(),
    };
    let landed = landed_among(
        units,
        player,
        squad.delivered_cargo@,
        squad.delivered_cargo.len() as int,
    );
    sorted_entities(members + cargo + landed)
}

/// Units among the first `n` of the list that fight, or capture if `capture`; neither the
/// transport of the squad nor what only supports others.
pub open spec fn fighting_among(
    units: Seq<UnitModel>,
    transport: Option<Entity>,
    list: Seq<Entity>,
    capture: bool,
    n: int,
) -> Seq<Entity>
    decreases n,
{
    if n <= 0 {
        Seq::empty()
    } else {
        let rest = fighting_among(units, transport, list, capture, n - 1);
        match unit_of(units, list[n - 1]) {
            Some(u) => if transport != Some(list[n - 1]) && !supports_only(u.unit_type)
                && u.can_capture == capture {
                rest.push(list[n - 1])
            } else {
                rest
            },
            None => rest,
        }
    }
}

/// What one squad contributes to the campaign for an island.
#[derive(Clone, Debug)]
pub struct SquadPart {
    pub island_id: IslandId,
    pub target_position: GridPosition,
    pub transport_phase: Option<TransportPhase>,
    pub is_forming: bool,
    pub transports: Vec<Entity>,
    pub captures: Vec<Entity>,
    pub combats: Vec<Entity>,
}

/// The plain contents of a contribution.
pub struct PartModel {
    pub island_id: IslandId,
    pub target_position: GridPosition,
    pub transport_phase: Option<TransportPhase>,
    pub is_forming: bool,
    pub transports: Seq<Entity>,
    pub captures: Seq<Entity>,
    pub combats: Seq<Entity>,
}

impl View for SquadPart {
    type V = PartModel;

    open spec fn view(&self) -> PartModel {
        PartModel {
            island_id: self.island_id,
            target_position: self.target_position,
            transport_phase: self.transport_phase,
            is_forming: self.is_forming,
            transports: self.transports@,
            captures: self.captures@,
            combats: self.combats@,
        }
    }
}

/// The plain contents of the contributions.
pub open spec fn part_models(parts: Seq<SquadPart>) -> Seq<PartModel> {
    Seq::new(parts.len(), |i: int| parts[i]@)
}

/// The island that the squad is meant for: the one it names, else the one its target lies on.
pub open spec fn squad_island(islands: Seq<Island>, squad: Squad) -> Option<IslandId> {
    match squad.target_island {
        Some(id) => Some(id),
        None => match squad.target {
            Some(p) => match island_holding(islands, p, 0) {
                Some(i) => Some(islands[i].id),
                None => None,
            },
            None => None,
        },
    }
}

/// The tile that the squad is meant for: the one it names, else the first tile of the island.
pub open spec fn squad_target(squad: Squad, tiles: Seq<GridPosition>) -> Option<GridPosition> {
    match squad.target {
        Some(p) => Some(p),
        None => {
            let sorted = sorted_positions(tiles);
            if sorted.len() > 0 {
                Some(sorted[0])
            } else {
                None
            }
        },
    }
}

/// The phase of the squad's own transport.
pub open spec fn squad_phase(units: Seq<UnitModel>, player: PlayerId, squad: Squad) -> Option<
    TransportPhase,
> {
    match (squad.phase, own_transport(units, player, squad)) {
        (MissionPhase::Transport(phase), Some(_)) => Some(phase),
        _ => None,
    }
}

/// The squad is a transport squad that is still forming around its own transport.
pub open spec fn squad_forming(units: Seq<UnitModel>, player: PlayerId, squad: Squad) -> bool {
    squad.mission_type == MissionType::Transport && squad.phase == MissionPhase::Forming
        && own_transport(units, player, squad) is Some
}

/// The squad still works towards its goal.
pub open spec fn squad_goes_on(units: Seq<UnitModel>, player: PlayerId, squad: Squad) -> bool {
    if squad.mission_type == MissionType::Transport {
        squad_forming(units, player, squad) || (squad_phase(units, player, squad) matches Some(p)
            && is_live(p))
    } else {
        squad.phase != MissionPhase::Completed
    }
}

/// The squad has nothing of the player.
pub open spec fn squad_foreign(units: Seq<UnitModel>, player: PlayerId, squad: Squad) -> bool {
    own_transport(units, player, squad) is None && assigned_units(units, player, squad).len() == 0
}

/// Where the squad goes: its island and its tile, if the island is known.
pub open spec fn squad_goal(
    islands: Seq<Island>,
    units: Seq<UnitModel>,
    player: PlayerId,
    squad: Squad,
) -> Option<(IslandId, GridPosition)> {
    if squad_foreign(units, player, squad) {
        None
    } else {
        match squad_island(islands, squad) {
            Some(id) => match island_numbered(islands, id, 0) {
                Some(i) => match squad_target(squad, islands[i].tiles@) {
                    Some(p) => Some((id, p)),
                    None => None,
                },
                None => None,
            },
            None => None,
        }
    }
}

/// What one squad contributes. A squad that no longer works towards its goal contributes no units.
pub open spec fn squad_part(
    islands: Seq<Island>,
    units: Seq<UnitModel>,
    player: PlayerId,
    squad: Squad,
) -> Option<PartModel> {
    match squad_goal(islands, units, player, squad) {
        Some((island_id, target_position)) => {
            let transport = own_transport(units, player, squad);
            let list = assigned_units(units, player, squad);
            let n = list.len() as int;
            let goes_on = squad_goes_on(units, player, squad);
            Some(
                PartModel {
                    island_id,
                    target_position,
                    transport_phase: squad_phase(units, player, squad),
                    is_forming: squad_forming(units, player, squad),
                    transports: match transport {
                        Some(t) => if goes_on {
                            seq![t]
                        } else {
                            Seq::empty()
                        },
                        None => Seq::empty(),
                    },
                    captures: if goes_on {
                        fighting_among(units, transport, list, true, n)
                    } else {
                        Seq::empty()
                    },
                    combats: if goes_on {
                        fighting_among(units, transport, list, false, n)
                    } else {
                        Seq::empty()
                    },
                },
            )
        },
        None => None,
    }
}

/// The contributions of the first `n` squads of the order.
pub open spec fn squad_parts(
    islands: Seq<Island>,
    squads: Seq<Squad>,
    units: Seq<UnitModel>,
    player: PlayerId,
    n: int,
) -> Seq<PartModel>
    decreases n,
{
    if n <= 0 {
        Seq::empty()
    } else {
        let rest = squad_parts(islands, squads, units, player, n - 1);
        match squad_part(islands, units, player, squads[squad_order(squads)[n - 1]]) {
            Some(part) => rest.push(part),
            None => rest,
        }
    }
}

/// A transport with the cargo that it fetches or carries to an island.
#[derive(Clone, Debug)]
pub struct CargoAssignment {
    pub island_id: IslandId,
    pub cargo_entities: Vec<Entity>,
    pub pickup_position: Option<GridPosition>,
    pub drop_position: Option<GridPosition>,
    pub transport_entity: Entity,
    pub phase: TransportPhase,
}

/// The plain contents of a cargo assignment.
pub struct CargoModel {
    pub island_id: IslandId,
    pub cargo_entities: Seq<Entity>,
    pub pickup_position: Option<GridPosition>,
    pub drop_position: Option<GridPosition>,
    pub transport_entity: Entity,
    pub phase: TransportPhase,
}

impl View for CargoAssignment {
    type V = CargoModel;

    open spec fn view(&self) -> CargoModel {
        CargoModel {
            island_id: self.island_id,
            cargo_entities: self.cargo_entities@,
            pickup_position: self.pickup_position,
            drop_position: self.drop_position,
            transport_entity: self.transport_entity,
            phase: self.phase,
        }
    }
}

/// The plain contents of the cargo assignments.
pub open spec fn cargo_models(list: Seq<CargoAssignment>) -> Seq<CargoModel> {
    Seq::new(list.len(), |i: int| list[i]@)
}

/// The cargo that the squad's own transport fetches or carries to an island.
pub open spec fn squad_cargo(
    islands: Seq<Island>,
    units: Seq<UnitModel>,
    player: PlayerId,
    squad: Squad,
) -> Option<CargoModel> {
    match (
        squad_goal(islands, units, player, squad),
        own_transport(units, player, squad),
        squad_phase(units, player, squad),
    ) {
        (Some((island_id, _)), Some(transport_entity), Some(phase)) => if squad_goes_on(
            units,
            player,
            squad,
        ) {
            Some(
                CargoModel {
                    island_id,
                    cargo_entities: sorted_entities(
                        cargo_among(
                            units,
                            player,
                            squad.phase,
                            transport_entity,
                            squad.cargo_entities@,
                            squad.cargo_entities.len() as int,
                        ),
                    ),
                    pickup_position: squad.pickup_position,
                    drop_position: squad.drop_position,
                    transport_entity,
                    phase,
                },
            )
        } else {
            None
        },
        _ => None,
    }
}

/// The cargo of the first `n` squads of the order.
pub open spec fn squad_cargoes(
    islands: Seq<Island>,
    squads: Seq<Squad>,
    units: Seq<UnitModel>,
    player: PlayerId,
    n: int,
) -> Seq<CargoModel>
    decreases n,
{
    if n <= 0 {
        Seq::empty()
    } else {
        let rest = squad_cargoes(islands, squads, units, player, n - 1);
        match squad_cargo(islands, units, player, squads[squad_order(squads)[n - 1]]) {
            Some(cargo) => rest.push(cargo),
            None => rest,
        }
    }
}

/// The last of the first `n` assignments that lists the unit.
pub open spec fn cargo_slot(list: Seq<CargoModel>, e: Entity, n: int) -> Option<int>
    decreases n,
{
    if n <= 0 {
        None
    } else if list[n - 1].cargo_entities.contains(e) {
        Some(n - 1)
    } else {
        cargo_slot(list, e, n - 1)
    }
}

/// Finds the last assignment that lists the unit.
pub fn find_cargo_slot(list: &Vec<CargoAssignment>, e: Entity) -> (r: Option<usize>)
    ensures
        r is Some <==> cargo_slot(cargo_models(list@), e, list.len() as int) is Some,
        r matches Some(i) ==> i < list.len() && cargo_slot(
            cargo_models(list@),
            e,
            list.len() as int,
        ) == Some(i as int),
{
    let ghost all = cargo_models(list@);
    let mut n: usize = list.len();
    while n > 0
        invariant
            n <= list.len(),
            all == cargo_models(list@),
            cargo_slot(all, e, list.len() as int) == cargo_slot(all, e, n as int),
        decreases n,
    {
        assert(all[n - 1] == list[n - 1]@);
        if contains_entity(&list[n - 1].cargo_entities, e) {
            return Some(n - 1);
        }
        n -= 1;
    }
    None
}

/// Of two phases of one campaign the first that is under way counts, else the first.
pub open spec fn joint_phase(
    current: Option<TransportPhase>,
    next: Option<TransportPhase>,
) -> Option<TransportPhase> {
    match next {
        Some(p) => match current {
            None => Some(p),
            Some(c) => if !is_live(c) && is_live(p) {
                Some(p)
            } else {
                Some(c)
            },
        },
        None => current,
    }
}

/// What the first `n` contributions make of the campaign for an island.
pub open spec fn joined_parts(parts: Seq<PartModel>, id: IslandId, n: int) -> Option<OperationModel>
    decreases n,
{
    if n <= 0 {
        None
    } else {
        let rest = joined_parts(parts, id, n - 1);
        let part = parts[n - 1];
        if part.island_id != id {
            rest
        } else {
            match rest {
                Some(o) => Some(
                    OperationModel {
                        island_id: id,
                        target_position: if read_before(part.target_position, o.target_position) {
                            part.target_position
                        } else {
                            o.target_position
                        },
                        transport_phase: joint_phase(o.transport_phase, part.transport_phase),
                        is_forming: o.is_forming || part.is_forming,
                        transport_entities: o.transport_entities + part.transports,
                        capture_entities: o.capture_entities + part.captures,
                        combat_entities: o.combat_entities + part.combats,
                    },
                ),
                None => Some(
                    OperationModel {
                        island_id: id,
                        target_position: part.target_position,
                        transport_phase: part.transport_phase,
                        is_forming: part.is_forming,
                        transport_entities: part.transports,
                        capture_entities: part.captures,
                        combat_entities: part.combats,
                    },
                ),
            }
        }
    }
}

/// The campaign with its units in ascending order, each once.
pub open spec fn tidied(o: OperationModel) -> OperationModel {
    OperationModel {
        transport_entities: sorted_entities(o.transport_entities),
        capture_entities: sorted_entities(o.capture_entities),
        combat_entities: sorted_entities(o.combat_entities),
        ..o
    }
}

/// The islands of the first `n` contributions, each once, in the order in which they come up.
pub open spec fn part_islands(parts: Seq<PartModel>, n: int) -> Seq<IslandId>
    decreases n,
{
    if n <= 0 {
        Seq::empty()
    } else {
        let rest = part_islands(parts, n - 1);
        if rest.contains(parts[n - 1].island_id) {
            rest
        } else {
            rest.push(parts[n - 1].island_id)
        }
    }
}

/// The keys by which islands are ordered.
pub open spec fn island_keys(ids: Seq<IslandId>) -> Seq<Seq<u64>> {
    Seq::new(ids.len(), |i: int| seq![ids[i].0 as u64])
}

/// The islands of the contributions in the order of their numbers.
pub open spec fn sorted_part_islands(parts: Seq<PartModel>) -> Seq<IslandId> {
    let ids = part_islands(parts, parts.len() as int);
    gather(ids, sort_order(island_keys(ids)))
}

/// The campaigns under way for the given islands.
pub open spec fn joined_operations(parts: Seq<PartModel>, ids: Seq<IslandId>, n: int) -> Seq<
    OperationModel,
>
    decreases n,
{
    if n <= 0 {
        Seq::empty()
    } else {
        let rest = joined_operations(parts, ids, n - 1);
        match joined_parts(parts, ids[n - 1], parts.len() as int) {
            Some(o) => rest.push(tidied(o)),
            None => rest,
        }
    }
}

/// The campaigns under way, in the order of their islands.
pub open spec fn existing_operations(
    islands: Seq<Island>,
    squads: Seq<Squad>,
    units: Seq<UnitModel>,
    player: PlayerId,
) -> Seq<OperationModel> {
    let parts = squad_parts(islands, squads, units, player, squads.len() as int);
    let ids = sorted_part_islands(parts);
    joined_operations(parts, ids, ids.len() as int)
}

fn collect_assigned_units(units: &Vec<UnitSnapshot>, player: PlayerId, squad: &Squad) -> (r: Vec<
    Entity,
>)
    ensures
        r@ == assigned_units(models(units@), player, *squad),
{
    let ghost all = models(units@);
    let mut list: Vec<Entity> = Vec::new();
    let mut n: usize = 0;
    while n < squad.members.len()
        invariant
            n <= squad.members.len(),
            all == models(units@),
            list@ == own_among(all, player, squad.members@, n as int),
        decreases squad.members.len() - n,
    {
        if owns(units, player, squad.members[n]) {
            list.push(squad.members[n]);
        }
        n += 1;
    }
    let ghost members = list@;
    if let Some(t) = find_own_transport(units, player, squad) {
        let cargo = collect_cargo(units, player, squad, t);
        push_entities(&mut list, &cargo);
    }
    let ghost so_far = list@;
    let mut k: usize = 0;
    while k < squad.delivered_cargo.len()
        invariant
            k <= squad.delivered_cargo.len(),
            all == models(units@),
            list@ == so_far + landed_among(all, player, squad.delivered_cargo@, k as int),
        decreases squad.delivered_cargo.len() - k,
    {
        let e = squad.delivered_cargo[k];
        if let Some(i) = find_unit(units, e) {
            if units[i].faction == player && units[i].transporting.is_none() {
                list.push(e);
            }
        }
        k += 1;
    }
    proof {
        let cargo = match own_transport(all, player, *squad) {
            Some(t) => cargo_among(
                all,
                player,
                squad.phase,
                t,
                squad.cargo_entities@,
                squad.cargo_entities.len() as int,
            ),
            None => Seq::empty(),
        };
        assert(so_far =~= members + cargo);
    }
    sort_entities(&list)
}

fn collect_cargo(units: &Vec<UnitSnapshot>, player: PlayerId, squad: &Squad, transport: Entity) -> (r:
    Vec<Entity>)
    ensures
        r@ == cargo_among(
            models(units@),
            player,
            squad.phase,
            transport,
            squad.cargo_entities@,
            squad.cargo_entities.len() as int,
        ),
{
    let mut r: Vec<Entity> = Vec::new();
    let mut n: usize = 0;
    while n < squad.cargo_entities.len()
        invariant
            n <= squad.cargo_entities.len(),
            r@ == cargo_among(
                models(units@),
                player,
                squad.phase,
                transport,
                squad.cargo_entities@,
                n as int,
            ),
        decreases squad.cargo_entities.len() - n,
    {
        let e = squad.cargo_entities[n];
        if owns(units, player, e) && transport_cargo_is_associated(
            squad.phase,
            transport,
            e,
            units,
        ) {
            r.push(e);
        }
        n += 1;
    }
    r
}

fn collect_fighting(
    units: &Vec<UnitSnapshot>,
    transport: Option<Entity>,
    list: &Vec<Entity>,
    capture: bool,
) -> (r: Vec<Entity>)
    ensures
        r@ == fighting_among(models(units@), transport, list@, capture, list.len() as int),
{
    let mut r: Vec<Entity> = Vec::new();
    let mut n: usize = 0;
    while n < list.len()
        invariant
            n <= list.len(),
            r@ == fighting_among(models(units@), transport, list@, capture, n as int),
        decreases list.len() - n,
    {
        let e = list[n];
        let carrier: bool = match transport {
            Some(t) => t == e,
            None => false,
        };
        if let Some(i) = find_unit(units, e) {
            if !carrier && !is_support_only(units[i].stats.unit_type) && units[i].stats.can_capture
                == capture {
                r.push(e);
            }
        }
        n += 1;
    }
    r
}

fn find_squad_goal(
    islands: &IslandMap,
    squad: &Squad,
    foreign: bool,
    Ghost(units): Ghost<Seq<UnitModel>>,
    Ghost(player): Ghost<PlayerId>,
) -> (r: Option<(IslandId, GridPosition)>)
    requires
        foreign == squad_foreign(units, player, *squad),
    ensures
        r == squad_goal(islands.islands@, units, player, *squad),
{
    if foreign {
        return None;
    }
    let id = match squad.target_island {
        Some(id) => id,
        None => match squad.target {
            Some(p) => match find_island_holding(islands, p) {
                Some(i) => islands.islands[i].id,
                None => {
                    return None;
                },
            },
            None => {
                return None;
            },
        },
    };
    let i: usize = match find_island_numbered(islands, id) {
        Some(i) => i,
        None => {
            return None;
        },
    };
    match squad.target {
        Some(p) => Some((id, p)),
        None => {
            let tiles = sorted_island_tiles(&islands.islands[i]);
            if tiles.len() > 0 {
                Some((id, tiles[0]))
            } else {
                None
            }
        },
    }
}

/// What one squad contributes, and the cargo of its transport.
fn examine_squad(
    islands: &IslandMap,
    units: &Vec<UnitSnapshot>,
    player: PlayerId,
    squad: &Squad,
) -> (r: (Option<SquadPart>, Option<CargoAssignment>))
    ensures
        match r.0 {
            Some(part) => squad_part(islands.islands@, models(units@), player, *squad) == Some(
                part@,
            ),
            None => squad_part(islands.islands@, models(units@), player, *squad) is None,
        },
        match r.1 {
            Some(cargo) => squad_cargo(islands.islands@, models(units@), player, *squad) == Some(
                cargo@,
            ),
            None => squad_cargo(islands.islands@, models(units@), player, *squad) is None,
        },
{
    let ghost all = models(units@);
    let transport = find_own_transport(units, player, squad);
    let list = collect_assigned_units(units, player, squad);
    let foreign: bool = transport.is_none() && list.len() == 0;
    let (island_id, target_position) = match find_squad_goal(
        islands,
        squad,
        foreign,
        Ghost(all),
        Ghost(player),
    ) {
        Some(goal) => goal,
        None => {
            return (None, None);
        },
    };
    let phase: Option<TransportPhase> = match squad.phase {
        MissionPhase::Transport(p) => if transport.is_some() {
            Some(p)
        } else {
            None
        },
        _ => None,
    };
    let forming: bool = squad.mission_type == MissionType::Transport && squad.phase
        == MissionPhase::Forming && transport.is_some();
    let under_way: bool = match phase {
        Some(p) => is_live_transport_phase(p),
        None => false,
    };
    let goes_on: bool = if squad.mission_type == MissionType::Transport {
        forming || under_way
    } else {
        squad.phase != MissionPhase::Completed
    };
    let mut transports: Vec<Entity> = Vec::new();
    let mut captures: Vec<Entity> = Vec::new();
    let mut combats: Vec<Entity> = Vec::new();
    if goes_on {
        if let Some(t) = transport {
            transports.push(t);
            assert(transports@ =~= seq![t]);
        }
        captures = collect_fighting(units, transport, &list, true);
        combats = collect_fighting(units, transport, &list, false);
    }
    let cargo = match (transport, phase) {
        (Some(t), Some(p)) => if goes_on {
            let raw = collect_cargo(units, player, squad, t);
            Some(
                CargoAssignment {
                    island_id,
                    cargo_entities: sort_entities(&raw),
                    pickup_position: squad.pickup_position,
                    drop_position: squad.drop_position,
                    transport_entity: t,
                    phase: p,
                },
            )
        } else {
            None
        },
        _ => None,
    };
    let part = SquadPart {
        island_id,
        target_position,
        transport_phase: phase,
        is_forming: forming,
        transports,
        captures,
        combats,
    };
    (Some(part), cargo)
}

fn contains_id(list: &Vec<IslandId>, id: IslandId) -> (r: bool)
    ensures
        r == list@.contains(id),
{
    let mut i: usize = 0;
    while i < list.len()
        invariant
            i <= list.len(),
            forall|j: int| 0 <= j < i ==> list[j] != id,
        decreases list.len() - i,
    {
        if list[i] == id {
            assert(list@[i as int] == id);
            return true;
        }
        i += 1;
    }
    false
}

fn collect_part_islands(parts: &Vec<SquadPart>) -> (r: Vec<IslandId>)
    ensures
        r@ == sorted_part_islands(part_models(parts@)),
{
    let ghost all = part_models(parts@);
    let mut ids: Vec<IslandId> = Vec::new();
    let mut keys: Vec<Vec<u64>> = Vec::new();
    let mut n: usize = 0;
    while n < parts.len()
        invariant
            n <= parts.len(),
            all == part_models(parts@),
            keys.len() == ids.len(),
            ids@ == part_islands(all, n as int),
            forall|i: int| 0 <= i < keys.len() ==> (#[trigger] keys[i])@ == seq![ids[i].0 as u64],
        decreases parts.len() - n,
    {
        let id = parts[n].island_id;
        assert(all[n as int] == parts[n as int]@);
        if !contains_id(&ids, id) {
            let mut key: Vec<u64> = Vec::new();
            key.push(id.0 as u64);
            assert(key@ =~= seq![id.0 as u64]);
            keys.push(key);
            ids.push(id);
        }
        n += 1;
    }
    assert(key_views(keys@) =~= island_keys(ids@));
    let order = stable_order(&keys);
    let mut r: Vec<IslandId> = Vec::new();
    let mut k: usize = 0;
    while k < order.len()
        invariant
            k <= order.len(),
            order.len() == ids.len(),
            forall|i: int| 0 <= i < order.len() ==> #[trigger] order[i] < ids.len(),
            r.len() == k,
            forall|i: int| 0 <= i < k ==> #[trigger] r[i] == ids[order[i] as int],
        decreases order.len() - k,
    {
        r.push(ids[order[k]]);
        k += 1;
    }
    proof {
        lemma_sort_prefix(island_keys(ids@), ids.len() as int);
        assert(r@ =~= sorted_part_islands(all));
    }
    r
}

fn join_parts(parts: &Vec<SquadPart>, id: IslandId) -> (r: Option<ExistingCampaignOperation>)
    ensures
        match r {
            Some(o) => joined_parts(part_models(parts@), id, parts.len() as int) matches Some(m)
                && tidied(m) == o@,
            None => joined_parts(part_models(parts@), id, parts.len() as int) is None,
        },
{
    let ghost all = part_models(parts@);
    let mut found: bool = false;
    let mut target_position = GridPosition { x: 0, y: 0 };
    let mut transport_phase: Option<TransportPhase> = None;
    let mut is_forming: bool = false;
    let mut transports: Vec<Entity> = Vec::new();
    let mut captures: Vec<Entity> = Vec::new();
    let mut combats: Vec<Entity> = Vec::new();
    let mut n: usize = 0;
    while n < parts.len()
        invariant
            n <= parts.len(),
            all == part_models(parts@),
            match joined_parts(all, id, n as int) {
                Some(m) => found && m == (OperationModel {
                    island_id: id,
                    target_position,
                    transport_phase,
                    is_forming,
                    transport_entities: transports@,
                    capture_entities: captures@,
                    combat_entities: combats@,
                }),
                None => !found && transport_phase is None && !is_forming && transports@.len() == 0
                    && captures@.len() == 0 && combats@.len() == 0,
            },
        decreases parts.len() - n,
    {
        let part = &parts[n];
        assert(all[n as int] == part@);
        let ghost before = (transports@, captures@, combats@);
        if part.island_id == id {
            if !found || reads_before(part.target_position, target_position) {
                target_position = part.target_position;
            }
            if let Some(p) = part.transport_phase {
                transport_phase = match transport_phase {
                    None => Some(p),
                    Some(c) => if !is_live_transport_phase(c) && is_live_transport_phase(p) {
                        Some(p)
                    } else {
                        Some(c)
                    },
                };
            }
            is_forming = is_forming || part.is_forming;
            push_entities(&mut transports, &part.transports);
            push_entities(&mut captures, &part.captures);
            push_entities(&mut combats, &part.combats);
            if !found {
                assert(transports@ =~= part.transports@);
                assert(captures@ =~= part.captures@);
                assert(combats@ =~= part.combats@);
            }
            found = true;
        }
        n += 1;
    }
    if found {
        Some(
            ExistingCampaignOperation {
                island_id: id,
                target_position,
                transport_phase,
                is_forming,
                transport_entities: sort_entities(&transports),
                capture_entities: sort_entities(&captures),
                combat_entities: sort_entities(&combats),
            },
        )
    } else {
        None
    }
}

/// The campaigns that the squads of the player are carrying out, in the order of their islands,
/// and the cargo that their transports fetch or carry.
pub fn collect_existing_operations(
    islands: &IslandMap,
    manager: &SquadManager,
    units: &Vec<UnitSnapshot>,
    player_id: PlayerId,
) -> (r: (Vec<ExistingCampaignOperation>, Vec<CargoAssignment>))
    ensures
        operation_models(r.0@) == existing_operations(
            islands.islands@,
            manager.squads@,
            models(units@),
            player_id,
        ),
        cargo_models(r.1@) == squad_cargoes(
            islands.islands@,
            manager.squads@,
            models(units@),
            player_id,
            manager.squads.len() as int,
        ),
{
    let ghost lands = islands.islands@;
    let ghost squads = manager.squads@;
    let ghost all = models(units@);
    let order = sort_squads(&manager.squads);
    let mut parts: Vec<SquadPart> = Vec::new();
    let mut cargoes: Vec<CargoAssignment> = Vec::new();
    let mut n: usize = 0;
    while n < order.len()
        invariant
            n <= order.len(),
            lands == islands.islands@,
            squads == manager.squads@,
            all == models(units@),
            order.len() == squads.len(),
            forall|i: int| 0 <= i < order.len() ==> #[trigger] order[i] == squad_order(squads)[i],
            forall|i: int| 0 <= i < order.len() ==> #[trigger] order[i] < squads.len(),
            part_models(parts@) == squad_parts(lands, squads, all, player_id, n as int),
            cargo_models(cargoes@) == squad_cargoes(lands, squads, all, player_id, n as int),
        decreases order.len() - n,
    {
        let squad = &manager.squads[order[n]];
        assert(*squad == squads[squad_order(squads)[n as int]]);
        let (part, cargo) = examine_squad(islands, units, player_id, squad);
        let ghost parts_before = parts@;
        let ghost cargoes_before = cargoes@;
        if let Some(p) = part {
            parts.push(p);
            assert(part_models(parts@) =~= part_models(parts_before).push(p@));
        }
        if let Some(c) = cargo {
            cargoes.push(c);
            assert(cargo_models(cargoes@) =~= cargo_models(cargoes_before).push(c@));
        }
        n += 1;
    }
    let ids = collect_part_islands(&parts);
    let ghost all_parts = part_models(parts@);
    let mut operations: Vec<ExistingCampaignOperation> = Vec::new();
    let mut k: usize = 0;
    while k < ids.len()
        invariant
            k <= ids.len(),
            all_parts == part_models(parts@),
            operation_models(operations@) == joined_operations(all_parts, ids@, k as int),
        decreases ids.len() - k,
    {
        let ghost before = operations@;
        if let Some(o) = join_parts(&parts, ids[k]) {
            operations.push(o);
            assert(operation_models(operations@) =~= operation_models(before).push(o@));
        }
        k += 1;
    }
    (operations, cargoes)
}

proof fn lemma_among_own(
    units: Seq<UnitModel>,
    player: PlayerId,
    phase: MissionPhase,
    transport: Entity,
    list: Seq<Entity>,
    n: int,
    e: Entity,
)
    requires
        0 <= n <= list.len(),
    ensures
        own_among(units, player, list, n).contains(e) ==> is_own(units, player, e),
        cargo_among(units, player, phase, transport, list, n).contains(e) ==> is_own(
            units,
            player,
            e,
        ),
        landed_among(units, player, list, n).contains(e) ==> is_own(units, player, e),
    decreases n,
{
    if n > 0 {
        lemma_among_own(units, player, phase, transport, list, n - 1, e);
        lemma_push_contains(own_among(units, player, list, n - 1), list[n - 1], e);
        lemma_push_contains(
            cargo_among(units, player, phase, transport, list, n - 1),
            list[n - 1],
            e,
        );
        lemma_push_contains(landed_among(units, player, list, n - 1), list[n - 1], e);
    }
}

proof fn lemma_push_contains(s: Seq<Entity>, x: Entity, e: Entity)
    ensures
        s.push(x).contains(e) <==> s.contains(e) || x == e,
{
    if s.contains(e) {
        let i = choose|i: int| 0 <= i < s.len() && s[i] == e;
        assert(s.push(x)[i] == e);
    }
    assert(s.push(x)[s.len() as int] == x);
    if s.push(x).contains(e) {
        let i = choose|i: int| 0 <= i < s.push(x).len() && s.push(x)[i] == e;
        if i < s.len() {
            assert(s[i] == e);
        }
    }
}

proof fn lemma_fighting_from(
    units: Seq<UnitModel>,
    transport: Option<Entity>,
    list: Seq<Entity>,
    capture: bool,
    n: int,
    e: Entity,
)
    requires
        0 <= n <= list.len(),
    ensures
        fighting_among(units, transport, list, capture, n).contains(e) ==> list.contains(e),
    decreases n,
{
    if n > 0 {
        lemma_fighting_from(units, transport, list, capture, n - 1, e);
        lemma_push_contains(
            fighting_among(units, transport, list, capture, n - 1),
            list[n - 1],
            e,
        );
        assert(list.contains(list[n - 1]));
    }
}

/// A campaign lists nobody but living units of the player.
pub proof fn law_contribution_is_own(
    islands: Seq<Island>,
    units: Seq<UnitModel>,
    player: PlayerId,
    squad: Squad,
    e: Entity,
)
    ensures
        squad_part(islands, units, player, squad) matches Some(part) ==> (part.transports.contains(
            e,
        ) || part.captures.contains(e) || part.combats.contains(e) ==> is_own(units, player, e)),
{
    if let Some(part) = squad_part(islands, units, player, squad) {
        let list = assigned_units(units, player, squad);
        let transport = own_transport(units, player, squad);
        lemma_fighting_from(units, transport, list, true, list.len() as int, e);
        lemma_fighting_from(units, transport, list, false, list.len() as int, e);
        let members = own_among(units, player, squad.members@, squad.members.len() as int);
        let cargo = match transport {
            Some(t) => cargo_among(
                units,
                player,
                squad.phase,
                t,
                squad.cargo_entities@,
                squad.cargo_entities.len() as int,
            ),
            None => Seq::empty(),
        };
        let landed = landed_among(
            units,
            player,
            squad.delivered_cargo@,
            squad.delivered_cargo.len() as int,
        );
        lemma_sorted_entities(members + cargo + landed);
        lemma_contains_sum(members + cargo, landed);
        lemma_contains_sum(members, cargo);
        if list.contains(e) {
            assert((members + cargo + landed).contains(e));
            let t = match transport {
                Some(t) => t,
                None => e,
            };
            lemma_among_own(
                units,
                player,
                squad.phase,
                t,
                squad.members@,
                squad.members.len() as int,
                e,
            );
            lemma_among_own(
                units,
                player,
                squad.phase,
                t,
                squad.cargo_entities@,
                squad.cargo_entities.len() as int,
                e,
            );
            lemma_among_own(
                units,
                player,
                squad.phase,
                t,
                squad.delivered_cargo@,
                squad.delivered_cargo.len() as int,
                e,
            );
        }
        if part.transports.contains(e) {
            let t = transport->0;
            assert(part.transports =~= seq![t]);
        }
    }
}

/// One of the first `n` contributions for the island lists the unit as a transport.
pub open spec fn gives_transport(parts: Seq<PartModel>, n: int, id: IslandId, e: Entity) -> bool {
    exists|k: int|
        0 <= k < n && (#[trigger] parts[k]).island_id == id && parts[k].transports.contains(e)
}

/// One of the first `n` contributions for the island lists the unit to capture.
pub open spec fn gives_capture(parts: Seq<PartModel>, n: int, id: IslandId, e: Entity) -> bool {
    exists|k: int|
        0 <= k < n && (#[trigger] parts[k]).island_id == id && parts[k].captures.contains(e)
}

/// One of the first `n` contributions for the island lists the unit to fight.
pub open spec fn gives_combat(parts: Seq<PartModel>, n: int, id: IslandId, e: Entity) -> bool {
    exists|k: int|
        0 <= k < n && (#[trigger] parts[k]).island_id == id && parts[k].combats.contains(e)
}

/// The campaign lists those units that one of the first `n` contributions lists.
pub open spec fn lists_given(parts: Seq<PartModel>, n: int, o: OperationModel) -> bool {
    &&& forall|e: Entity| #[trigger]
        o.transport_entities.contains(e) <==> gives_transport(parts, n, o.island_id, e)
    &&& forall|e: Entity| #[trigger]
        o.capture_entities.contains(e) <==> gives_capture(parts, n, o.island_id, e)
    &&& forall|e: Entity| #[trigger]
        o.combat_entities.contains(e) <==> gives_combat(parts, n, o.island_id, e)
}

/// The campaign aims for a position for which one of the first `n` contributions to its island
/// aims and before which no other comes in reading order, and is forming if one of them is.
pub open spec fn aims_first(parts: Seq<PartModel>, n: int, o: OperationModel) -> bool {
    &&& exists|k: int|
        0 <= k < n && (#[trigger] parts[k]).island_id == o.island_id && parts[k].target_position
            == o.target_position
    &&& forall|k: int|
        0 <= k < n && (#[trigger] parts[k]).island_id == o.island_id ==> !read_before(
            parts[k].target_position,
            o.target_position,
        )
    &&& o.is_forming <==> exists|k: int|
        0 <= k < n && (#[trigger] parts[k]).island_id == o.island_id && parts[k].is_forming
}

proof fn lemma_gives_one_more(parts: Seq<PartModel>, n: int, id: IslandId, e: Entity)
    requires
        0 < n <= parts.len(),
    ensures
        gives_transport(parts, n, id, e) <==> gives_transport(parts, n - 1, id, e) || (parts[n
            - 1].island_id == id && parts[n - 1].transports.contains(e)),
        gives_capture(parts, n, id, e) <==> gives_capture(parts, n - 1, id, e) || (parts[n
            - 1].island_id == id && parts[n - 1].captures.contains(e)),
        gives_combat(parts, n, id, e) <==> gives_combat(parts, n - 1, id, e) || (parts[n
            - 1].island_id == id && parts[n - 1].combats.contains(e)),
{
    if gives_transport(parts, n - 1, id, e) {
        let k = choose|k: int|
            0 <= k < n - 1 && (#[trigger] parts[k]).island_id == id && parts[k].transports.contains(
                e,
            );
        assert(0 <= k < n && parts[k].transports.contains(e));
    }
    if gives_capture(parts, n - 1, id, e) {
        let k = choose|k: int|
            0 <= k < n - 1 && (#[trigger] parts[k]).island_id == id && parts[k].captures.contains(e);
        assert(0 <= k < n && parts[k].captures.contains(e));
    }
    if gives_combat(parts, n - 1, id, e) {
        let k = choose|k: int|
            0 <= k < n - 1 && (#[trigger] parts[k]).island_id == id && parts[k].combats.contains(e);
        assert(0 <= k < n && parts[k].combats.contains(e));
    }
}

proof fn lemma_aims_first(parts: Seq<PartModel>, id: IslandId, n: int)
    requires
        0 < n <= parts.len(),
        match joined_parts(parts, id, n - 1) {
            Some(o) => o.island_id == id && aims_first(parts, n - 1, o),
            None => forall|k: int| 0 <= k < n - 1 ==> (#[trigger] parts[k]).island_id != id,
        },
    ensures
        joined_parts(parts, id, n) matches Some(o) ==> aims_first(parts, n, o),
{
    if let Some(next) = joined_parts(parts, id, n) {
        if let Some(o) = joined_parts(parts, id, n - 1) {
            let k = choose|k: int|
                0 <= k < n - 1 && (#[trigger] parts[k]).island_id == id && parts[k].target_position
                    == o.target_position;
            assert(0 <= k < n && parts[k].island_id == id);
            if o.is_forming {
                let j = choose|j: int|
                    0 <= j < n - 1 && (#[trigger] parts[j]).island_id == id && parts[j].is_forming;
                assert(0 <= j < n && parts[j].is_forming);
            }
        }
    }
}

proof fn lemma_joined_parts(parts: Seq<PartModel>, id: IslandId, n: int)
    requires
        0 <= n <= parts.len(),
    ensures
        match joined_parts(parts, id, n) {
            Some(o) => o.island_id == id && lists_given(parts, n, o) && aims_first(parts, n, o),
            None => forall|k: int| 0 <= k < n ==> (#[trigger] parts[k]).island_id != id,
        },
    decreases n,
{
    if n > 0 {
        lemma_joined_parts(parts, id, n - 1);
        let part = parts[n - 1];
        if let Some(next) = joined_parts(parts, id, n) {
            lemma_aims_first(parts, id, n);
            if let Some(o) = joined_parts(parts, id, n - 1) {
                lemma_contains_sum(o.transport_entities, part.transports);
                lemma_contains_sum(o.capture_entities, part.captures);
                lemma_contains_sum(o.combat_entities, part.combats);
            }
            assert forall|e: Entity| #[trigger]
                next.transport_entities.contains(e) <==> gives_transport(parts, n, id, e) by {
                lemma_gives_one_more(parts, n, id, e);
            }
            assert forall|e: Entity| #[trigger]
                next.capture_entities.contains(e) <==> gives_capture(parts, n, id, e) by {
                lemma_gives_one_more(parts, n, id, e);
            }
            assert forall|e: Entity| #[trigger]
                next.combat_entities.contains(e) <==> gives_combat(parts, n, id, e) by {
                lemma_gives_one_more(parts, n, id, e);
            }
        }
    }
}

proof fn lemma_part_islands(parts: Seq<PartModel>, n: int)
    requires
        0 <= n <= parts.len(),
    ensures
        forall|i: int, j: int|
            0 <= i < j < part_islands(parts, n).len() ==> #[trigger] part_islands(parts, n)[i]
                != #[trigger] part_islands(parts, n)[j],
        forall|k: int|
            0 <= k < n ==> part_islands(parts, n).contains((#[trigger] parts[k]).island_id),
        forall|i: int|
            0 <= i < part_islands(parts, n).len() ==> joined_parts(
                parts,
                #[trigger] part_islands(parts, n)[i],
                n,
            ) is Some,
    decreases n,
{
    if n > 0 {
        lemma_part_islands(parts, n - 1);
        let rest = part_islands(parts, n - 1);
        let ids = part_islands(parts, n);
        let last = parts[n - 1].island_id;
        if rest.contains(last) {
            assert(ids == rest);
        } else {
            assert(ids[rest.len() as int] == last);
            assert forall|i: int| 0 <= i < rest.len() implies ids[i] == rest[i] && rest.contains(
                #[trigger] ids[i],
            ) by {
                assert(rest[i] == ids[i]);
            }
        }
        assert forall|k: int| 0 <= k < n implies ids.contains((#[trigger] parts[k]).island_id) by {
            if k < n - 1 && !rest.contains(last) {
                let i = choose|i: int| 0 <= i < rest.len() && rest[i] == parts[k].island_id;
                assert(ids[i] == parts[k].island_id);
            }
        }
        assert forall|i: int| 0 <= i < ids.len() implies joined_parts(
            parts,
            #[trigger] ids[i],
            n,
        ) is Some by {
            if i < rest.len() {
                assert(joined_parts(parts, rest[i], n - 1) is Some);
            }
        }
    }
}

proof fn lemma_sorted_part_islands(parts: Seq<PartModel>)
    ensures
        ({
            let ids = sorted_part_islands(parts);
            &&& forall|i: int, j: int|
                0 <= i < j < ids.len() ==> (#[trigger] ids[i]).0 < (#[trigger] ids[j]).0
            &&& forall|k: int|
                0 <= k < parts.len() ==> ids.contains((#[trigger] parts[k]).island_id)
            &&& forall|i: int|
                0 <= i < ids.len() ==> joined_parts(
                    parts,
                    #[trigger] ids[i],
                    parts.len() as int,
                ) is Some
        }),
{
    let found = part_islands(parts, parts.len() as int);
    let keys = island_keys(found);
    let order = sort_order(keys);
    let ids = sorted_part_islands(parts);
    lemma_part_islands(parts, parts.len() as int);
    lemma_sort_prefix(keys, found.len() as int);
    assert forall|i: int, j: int| 0 <= i < j < ids.len() implies (#[trigger] ids[i]).0 < (
    #[trigger] ids[j]).0 by {
        let a = order[i];
        let b = order[j];
        assert(stands_before(keys, a, b));
        assert(ids[i] == found[a] && ids[j] == found[b]);
        assert(keys[a] == seq![found[a].0 as u64]);
        assert(keys[b] == seq![found[b].0 as u64]);
        assert(keys[a][0] == found[a].0 as u64);
        assert(keys[b][0] == found[b].0 as u64);
        if a == b {
            lemma_lex_irreflexive(keys[a]);
        } else if a < b {
            assert(found[a] != found[b]);
        } else {
            assert(found[b] != found[a]);
        }
        if keys[a][0] == keys[b][0] {
            assert(keys[a] == keys[b]);
            lemma_lex_irreflexive(keys[a]);
        }
    }
    assert forall|k: int| 0 <= k < parts.len() implies ids.contains(
        (#[trigger] parts[k]).island_id,
    ) by {
        let i = choose|i: int| 0 <= i < found.len() && found[i] == parts[k].island_id;
        assert(order.contains(i));
        let p = choose|p: int| 0 <= p < order.len() && order[p] == i;
        assert(ids[p] == found[i]);
    }
    assert forall|i: int| 0 <= i < ids.len() implies joined_parts(
        parts,
        #[trigger] ids[i],
        parts.len() as int,
    ) is Some by {
        assert(ids[i] == found[order[i]]);
    }
}

proof fn lemma_joined_operations(parts: Seq<PartModel>, ids: Seq<IslandId>, n: int)
    requires
        0 <= n <= ids.len(),
        forall|i: int|
            0 <= i < ids.len() ==> joined_parts(
                parts,
                #[trigger] ids[i],
                parts.len() as int,
            ) is Some,
    ensures
        joined_operations(parts, ids, n).len() == n,
        forall|i: int|
            0 <= i < n ==> (joined_parts(parts, ids[i], parts.len() as int) matches Some(o)
                && #[trigger] joined_operations(parts, ids, n)[i] == tidied(o)),
    decreases n,
{
    if n > 0 {
        lemma_joined_operations(parts, ids, n - 1);
        assert(joined_parts(parts, ids[n - 1], parts.len() as int) is Some);
    }
}

/// The contribution lists nobody but living units of the player.
pub open spec fn lists_own(units: Seq<UnitModel>, player: PlayerId, part: PartModel) -> bool {
    forall|e: Entity|
        #![trigger part.transports.contains(e)]
        #![trigger part.captures.contains(e)]
        #![trigger part.combats.contains(e)]
        part.transports.contains(e) || part.captures.contains(e) || part.combats.contains(e)
            ==> is_own(units, player, e)
}

proof fn lemma_parts_own(
    islands: Seq<Island>,
    squads: Seq<Squad>,
    units: Seq<UnitModel>,
    player: PlayerId,
    n: int,
)
    ensures
        forall|k: int|
            0 <= k < squad_parts(islands, squads, units, player, n).len() ==> lists_own(
                units,
                player,
                #[trigger] squad_parts(islands, squads, units, player, n)[k],
            ),
    decreases n,
{
    if n > 0 {
        lemma_parts_own(islands, squads, units, player, n - 1);
        let squad = squads[squad_order(squads)[n - 1]];
        let rest = squad_parts(islands, squads, units, player, n - 1);
        let parts = squad_parts(islands, squads, units, player, n);
        assert forall|k: int| 0 <= k < parts.len() implies lists_own(
            units,
            player,
            #[trigger] parts[k],
        ) by {
            if k < rest.len() {
                assert(parts[k] == rest[k]);
            } else {
                let part = parts[k];
                assert forall|e: Entity|
                    part.transports.contains(e) || part.captures.contains(e)
                        || part.combats.contains(e) implies is_own(units, player, e) by {
                    law_contribution_is_own(islands, units, player, squad, e);
                }
            }
        }
    }
}

/// The campaigns under way are in the ascending order of their islands, one for each island to
/// which a squad contributes. Each lists those units that some squad contributes to its island, in
/// ascending order, and nobody but living units of the player. It aims for the first position for
/// which one of these squads aims, and is forming if one of them is.
pub proof fn law_operations_join_squads(
    islands: Seq<Island>,
    squads: Seq<Squad>,
    units: Seq<UnitModel>,
    player: PlayerId,
)
    ensures
        ({
            let parts = squad_parts(islands, squads, units, player, squads.len() as int);
            let all = existing_operations(islands, squads, units, player);
            &&& forall|i: int, j: int|
                0 <= i < j < all.len() ==> (#[trigger] all[i]).island_id.0 < (
                #[trigger] all[j]).island_id.0
            &&& forall|k: int|
                0 <= k < parts.len() ==> exists|i: int|
                    0 <= i < all.len() && (#[trigger] all[i]).island_id == (
                    #[trigger] parts[k]).island_id
            &&& forall|i: int|
                0 <= i < all.len() ==> lists_given(parts, parts.len() as int, #[trigger] all[i])
                    && aims_first(parts, parts.len() as int, all[i])
            &&& forall|i: int|
                0 <= i < all.len() ==> {
                    &&& ascending((#[trigger] all[i]).transport_entities)
                    &&& ascending(all[i].capture_entities)
                    &&& ascending(all[i].combat_entities)
                }
            &&& forall|i: int, e: Entity|
                #![trigger all[i].transport_entities.contains(e)]
                #![trigger all[i].capture_entities.contains(e)]
                #![trigger all[i].combat_entities.contains(e)]
                0 <= i < all.len() && (all[i].transport_entities.contains(e)
                    || all[i].capture_entities.contains(e) || all[i].combat_entities.contains(e))
                    ==> is_own(units, player, e)
        }),
{
    let parts = squad_parts(islands, squads, units, player, squads.len() as int);
    let n = parts.len() as int;
    let ids = sorted_part_islands(parts);
    let all = existing_operations(islands, squads, units, player);
    lemma_sorted_part_islands(parts);
    lemma_joined_operations(parts, ids, ids.len() as int);
    lemma_parts_own(islands, squads, units, player, squads.len() as int);
    assert forall|i: int| 0 <= i < all.len() implies (#[trigger] all[i]).island_id == ids[i]
        && lists_given(parts, n, all[i]) && aims_first(parts, n, all[i]) && ascending(all[i].transport_entities) && ascending(
        all[i].capture_entities,
    ) && ascending(all[i].combat_entities) by {
        lemma_joined_parts(parts, ids[i], n);
        if let Some(o) = joined_parts(parts, ids[i], n) {
            assert(all[i] == tidied(o));
            lemma_sorted_entities(o.transport_entities);
            lemma_sorted_entities(o.capture_entities);
            lemma_sorted_entities(o.combat_entities);
        }
    }
    assert forall|k: int| 0 <= k < parts.len() implies exists|i: int|
        0 <= i < all.len() && (#[trigger] all[i]).island_id == (#[trigger] parts[k]).island_id by {
        let i = choose|i: int| 0 <= i < ids.len() && ids[i] == parts[k].island_id;
        assert(all[i].island_id == ids[i]);
    }
    assert forall|i: int, e: Entity|
        #![trigger all[i].transport_entities.contains(e)]
        #![trigger all[i].capture_entities.contains(e)]
        #![trigger all[i].combat_entities.contains(e)]
        0 <= i < all.len() && (all[i].transport_entities.contains(e)
            || all[i].capture_entities.contains(e) || all[i].combat_entities.contains(
            e,
        )) implies is_own(units, player, e) by {
        let o = all[i];
        assert(lists_given(parts, n, o));
        if o.transport_entities.contains(e) {
            let k = choose|k: int|
                0 <= k < n && (#[trigger] parts[k]).island_id == o.island_id
                    && parts[k].transports.contains(e);
            assert(lists_own(units, player, parts[k]));
        } else if o.capture_entities.contains(e) {
            let k = choose|k: int|
                0 <= k < n && (#[trigger] parts[k]).island_id == o.island_id
                    && parts[k].captures.contains(e);
            assert(lists_own(units, player, parts[k]));
        } else {
            let k = choose|k: int|
                0 <= k < n && (#[trigger] parts[k]).island_id == o.island_id
                    && parts[k].combats.contains(e);
            assert(lists_own(units, player, parts[k]));
        }
    }
}

} // verus!
