//! Looking one turn ahead on the board, and taking it back.
use crate::board::{lemma_row_of, row_of, rows_distinct, Board, BoardRow, Property};
use crate::entity::Entity;
use crate::grid::{GameMap, GridPosition};
use crate::squad::{MissionType, Squad, SquadId};
use crate::units::{Ammo, Health, MovementType, PlayerId, UnitStats};
use vstd::prelude::*;

verus! {

/// What is kept of an entity: where it stands, its health and its ammunition, as far as it has
/// them.
#[derive(Clone, Copy, Debug)]
pub struct UnitBackup {
    pub entity: Entity,
    pub position: Option<GridPosition>,
    pub health: Option<Health>,
    pub ammo: Option<Ammo>,
}

/// What is kept of a building.
#[derive(Clone, Copy, Debug)]
pub struct PropertyBackup {
    pub entity: Entity,
    pub owner_id: Option<PlayerId>,
    pub capture_points: u32,
}

/// The state of a board before a look ahead.
pub struct AiSimulationState {
    unit_backups: Vec<UnitBackup>,
    property_backups: Vec<PropertyBackup>,
}

/// How many turns each tile is away from a target, for one way of moving. Tiles that are not
/// listed cannot get there.
#[derive(Clone, Debug)]
pub struct DistanceField {
    pub target: GridPosition,
    pub movement_type: MovementType,
    pub max_movement: u32,
    pub turns: Vec<(GridPosition, u32)>,
}

/// What is kept of the first `n` rows.
pub open spec fn units_of(rows: Seq<BoardRow>, n: int) -> Seq<UnitBackup>
    decreases n,
{
    if n <= 0 {
        Seq::empty()
    } else {
        let row = rows[n - 1];
        units_of(rows, n - 1).push(
            UnitBackup {
                entity: row.entity,
                position: row.position,
                health: row.health,
                ammo: row.ammo,
            },
        )
    }
}

/// The buildings among the first `n` rows.
pub open spec fn properties_of(rows: Seq<BoardRow>, n: int) -> Seq<PropertyBackup>
    decreases n,
{
    if n <= 0 {
        Seq::empty()
    } else {
        let row = rows[n - 1];
        match row.property {
            Some(p) => properties_of(rows, n - 1).push(
                PropertyBackup {
                    entity: row.entity,
                    owner_id: p.owner_id,
                    capture_points: p.capture_points,
                },
            ),
            None => properties_of(rows, n - 1),
        }
    }
}

/// The row with what was kept of its entity put back, as far as the row still has it.
pub open spec fn unit_put_back(row: BoardRow, b: UnitBackup) -> BoardRow {
    BoardRow {
        position: if b.position is Some && row.position is Some {
            b.position
        } else {
            row.position
        },
        health: if b.health is Some && row.health is Some {
            b.health
        } else {
            row.health
        },
        ammo: if b.ammo is Some && row.ammo is Some {
            b.ammo
        } else {
            row.ammo
        },
        ..row
    }
}

/// The row with what was kept of a building put back, if the row still has one.
pub open spec fn property_put_back(row: BoardRow, b: PropertyBackup) -> BoardRow {
    match row.property {
        Some(p) => BoardRow {
            property: Some(
                Property { owner_id: b.owner_id, capture_points: b.capture_points, ..p },
            ),
            ..row
        },
        None => row,
    }
}

/// The rows after what was kept of the first `n` entities was put back.
pub open spec fn units_restored(rows: Seq<BoardRow>, kept: Seq<UnitBackup>, n: int) -> Seq<BoardRow>
    decreases n,
{
    if n <= 0 {
        rows
    } else {
        let before = units_restored(rows, kept, n - 1);
        match row_of(before, kept[n - 1].entity, 0) {
            Some(i) => before.update(i, unit_put_back(before[i], kept[n - 1])),
            None => before,
        }
    }
}

/// The rows after the first `n` kept buildings were put back.
pub open spec fn properties_restored(
    rows: Seq<BoardRow>,
    kept: Seq<PropertyBackup>,
    n: int,
) -> Seq<BoardRow>
    decreases n,
{
    if n <= 0 {
        rows
    } else {
        let before = properties_restored(rows, kept, n - 1);
        match row_of(before, kept[n - 1].entity, 0) {
            Some(i) => before.update(i, property_put_back(before[i], kept[n - 1])),
            None => before,
        }
    }
}

/// The rows after everything that was kept was put back.
pub open spec fn restored(
    rows: Seq<BoardRow>,
    units: Seq<UnitBackup>,
    properties: Seq<PropertyBackup>,
) -> Seq<BoardRow> {
    properties_restored(
        units_restored(rows, units, units.len() as int),
        properties,
        properties.len() as int,
    )
}

/// The turns that the list gives a tile from index `i` on.
pub open spec fn turns_at(field: Seq<(GridPosition, u32)>, p: GridPosition, i: int) -> u32
    decreases field.len() - i,
{
    if i >= field.len() {
        u32::MAX
    } else if field[i].0 == p {
        field[i].1
    } else {
        turns_at(field, p, i + 1)
    }
}

/// The turns to the target for a way of moving, from the first field from index `i` on that
/// speaks of it; an empty list where none does.
pub open spec fn field_for(
    fields: Seq<DistanceField>,
    target: GridPosition,
    movement_type: MovementType,
    max_movement: u32,
    i: int,
) -> Seq<(GridPosition, u32)>
    decreases fields.len() - i,
{
    if i >= fields.len() {
        Seq::empty()
    } else if fields[i].target == target && fields[i].movement_type == movement_type
        && fields[i].max_movement == max_movement {
        fields[i].turns@
    } else {
        field_for(fields, target, movement_type, max_movement, i + 1)
    }
}

/// The first of the nearest tiles among `start` and the first `n` of `near`.
pub open spec fn nearest(
    field: Seq<(GridPosition, u32)>,
    near: Seq<GridPosition>,
    start: (GridPosition, u32),
    n: int,
) -> (GridPosition, u32)
    decreases n,
{
    if n <= 0 {
        start
    } else {
        let best = nearest(field, near, start, n - 1);
        let turns = turns_at(field, near[n - 1], 0);
        if turns < best.1 {
            (near[n - 1], turns)
        } else {
            best
        }
    }
}

/// Where a unit ends that goes from tile to nearer tile, for at most `steps` steps, and stops as
/// soon as it is `goal` turns away.
pub open spec fn walk(
    map: GameMap,
    field: Seq<(GridPosition, u32)>,
    from: GridPosition,
    turns: u32,
    goal: u32,
    steps: nat,
) -> GridPosition
    decreases steps,
{
    if steps == 0 {
        from
    } else {
        let near = map.adjacent(from);
        let next = nearest(field, near, (from, turns), near.len() as int);
        if next.0 == from {
            from
        } else if next.1 <= goal {
            next.0
        } else {
            walk(map, field, next.0, next.1, goal, (steps - 1) as nat)
        }
    }
}

/// Where a unit stands after one turn towards the target.
pub open spec fn advanced(
    map: GameMap,
    field: Seq<(GridPosition, u32)>,
    from: GridPosition,
    max_movement: u32,
) -> GridPosition {
    let turns = turns_at(field, from, 0);
    if turns != u32::MAX && turns > 0 {
        walk(map, field, from, turns, (turns - 1) as u32, max_movement as nat)
    } else {
        from
    }
}

/// The rows after an entity was put at a position, if it has one.
pub open spec fn placed(rows: Seq<BoardRow>, e: Entity, p: GridPosition) -> Seq<BoardRow> {
    match row_of(rows, e, 0) {
        Some(i) => if rows[i].position is Some {
            rows.update(i, BoardRow { position: Some(p), ..rows[i] })
        } else {
            rows
        },
        None => rows,
    }
}

/// The rows after the first `n` entities of the list were put at a position.
pub open spec fn all_placed(
    rows: Seq<BoardRow>,
    entities: Seq<Entity>,
    p: GridPosition,
    n: int,
) -> Seq<BoardRow>
    decreases n,
{
    if n <= 0 {
        rows
    } else {
        placed(all_placed(rows, entities, p, n - 1), entities[n - 1], p)
    }
}

/// The row after the player took the position.
pub open spec fn taken(row: BoardRow, p: GridPosition, player: PlayerId) -> BoardRow {
    match row.property {
        Some(property) => if row.position == Some(p) {
            BoardRow {
                property: Some(
                    Property {
                        owner_id: Some(player),
                        capture_points: property.max_capture_points,
                        ..property
                    },
                ),
                ..row
            }
        } else {
            row
        },
        None => row,
    }
}

/// The rows after the player took every building at the position.
pub open spec fn captured(rows: Seq<BoardRow>, p: GridPosition, player: PlayerId) -> Seq<BoardRow> {
    Seq::new(rows.len(), |i: int| taken(rows[i], p, player))
}

/// The rows after one unit moved towards the target; a unit of a capture squad that gets there
/// takes what stands there.
pub open spec fn member_moved(
    rows: Seq<BoardRow>,
    map: GameMap,
    fields: Seq<DistanceField>,
    mission_type: MissionType,
    target: GridPosition,
    player: PlayerId,
    member: Entity,
) -> Seq<BoardRow> {
    match row_of(rows, member, 0) {
        Some(i) => match (rows[i].stats, rows[i].position) {
            (Some(stats), Some(from)) => {
                let field = field_for(fields, target, stats.movement_type, stats.max_movement, 0);
                let to = advanced(map, field, from, stats.max_movement);
                let after = rows.update(i, BoardRow { position: Some(to), ..rows[i] });
                if mission_type == MissionType::Capture && to == target {
                    captured(after, to, player)
                } else {
                    after
                }
            },
            _ => rows,
        },
        None => rows,
    }
}

/// The rows after the first `n` members moved.
pub open spec fn members_moved(
    rows: Seq<BoardRow>,
    map: GameMap,
    fields: Seq<DistanceField>,
    squad: Squad,
    target: GridPosition,
    player: PlayerId,
    n: int,
) -> Seq<BoardRow>
    decreases n,
{
    if n <= 0 {
        rows
    } else {
        member_moved(
            members_moved(rows, map, fields, squad, target, player, n - 1),
            map,
            fields,
            squad.mission_type,
            target,
            player,
            squad.members[n - 1],
        )
    }
}

/// The target of a squad in the list from index `i` on.
pub open spec fn target_of(
    assignments: Seq<(SquadId, GridPosition)>,
    id: SquadId,
    i: int,
) -> Option<GridPosition>
    decreases assignments.len() - i,
{
    if i >= assignments.len() {
        None
    } else if assignments[i].0 == id {
        Some(assignments[i].1)
    } else {
        target_of(assignments, id, i + 1)
    }
}

/// The rows after a squad acted. A transport squad counts as landed: its cargo and its members
/// stand at the target. A squad without a target does nothing.
pub open spec fn squad_moved(
    rows: Seq<BoardRow>,
    map: GameMap,
    fields: Seq<DistanceField>,
    squad: Squad,
    assignments: Seq<(SquadId, GridPosition)>,
    player: PlayerId,
) -> Seq<BoardRow> {
    match target_of(assignments, squad.id, 0) {
        Some(target) => if squad.mission_type == MissionType::Transport {
            let landed = match squad.transport_cargo {
                Some(cargo) => placed(rows, cargo, target),
                None => rows,
            };
            all_placed(landed, squad.members@, target, squad.members.len() as int)
        } else {
            members_moved(rows, map, fields, squad, target, player, squad.members.len() as int)
        },
        None => rows,
    }
}

/// The rows after the first `n` squads acted.
pub open spec fn plan_simulated(
    rows: Seq<BoardRow>,
    map: GameMap,
    fields: Seq<DistanceField>,
    squads: Seq<Squad>,
    assignments: Seq<(SquadId, GridPosition)>,
    player: PlayerId,
    n: int,
) -> Seq<BoardRow>
    decreases n,
{
    if n <= 0 {
        rows
    } else {
        squad_moved(
            plan_simulated(rows, map, fields, squads, assignments, player, n - 1),
            map,
            fields,
            squads[n - 1],
            assignments,
            player,
        )
    }
}

impl AiSimulationState {
    /// What is kept of the entities.
    pub closed spec fn units(self) -> Seq<UnitBackup> {
        self.unit_backups@
    }

    /// What is kept of the buildings.
    pub closed spec fn properties(self) -> Seq<PropertyBackup> {
        self.property_backups@
    }

    /// Keeps the state of every entity and of every building.
    pub fn backup(board: &Board) -> (r: AiSimulationState)
        ensures
            r.units() == units_of(board.rows@, board.rows.len() as int),
            r.properties() == properties_of(board.rows@, board.rows.len() as int),
    {
        let mut unit_backups: Vec<UnitBackup> = Vec::new();
        let mut property_backups: Vec<PropertyBackup> = Vec::new();
        let mut n: usize = 0;
        while n < board.rows.len()
            invariant
                n <= board.rows.len(),
                unit_backups@ == units_of(board.rows@, n as int),
                property_backups@ == properties_of(board.rows@, n as int),
            decreases board.rows.len() - n,
        {
            let entity = board.rows[n].entity;
            unit_backups.push(
                UnitBackup {
                    entity,
                    position: board.rows[n].position,
                    health: board.rows[n].health,
                    ammo: board.rows[n].ammo,
                },
            );
            if let Some(p) = board.rows[n].property {
                property_backups.push(
                    PropertyBackup {
                        entity,
                        owner_id: p.owner_id,
                        capture_points: p.capture_points,
                    },
                );
            }
            n += 1;
        }
        AiSimulationState { unit_backups, property_backups }
    }

    /// Puts back what was kept.
    pub fn restore(self, board: &mut Board)
        ensures
            final(board).rows@ == restored(old(board).rows@, self.units(), self.properties()),
    {
        let ghost rows = board.rows@;
        let ghost kept = self.unit_backups@;
        let mut n: usize = 0;
        while n < self.unit_backups.len()
            invariant
                n <= self.unit_backups.len(),
                kept == self.unit_backups@,
                board.rows@ == units_restored(rows, kept, n as int),
            decreases self.unit_backups.len() - n,
        {
            let b = self.unit_backups[n];
            let ghost before = board.rows@;
            if let Some(i) = board.find(b.entity) {
                if b.position.is_some() && board.rows[i].position.is_some() {
                    board.rows[i].position = b.position;
                }
                if b.health.is_some() && board.rows[i].health.is_some() {
                    board.rows[i].health = b.health;
                }
                if b.ammo.is_some() && board.rows[i].ammo.is_some() {
                    board.rows[i].ammo = b.ammo;
                }
                assert(board.rows@ =~= before.update(i as int, unit_put_back(before[i as int], b)));
            }
            n += 1;
        }
        let ghost middle = board.rows@;
        let mut m: usize = 0;
        while m < self.property_backups.len()
            invariant
                m <= self.property_backups.len(),
                board.rows@ == properties_restored(middle, self.property_backups@, m as int),
            decreases self.property_backups.len() - m,
        {
            let b = self.property_backups[m];
            let ghost before = board.rows@;
            if let Some(i) = board.find(b.entity) {
                if let Some(p) = board.rows[i].property {
                    board.rows[i].property = Some(
                        Property {
                            terrain: p.terrain,
                            owner_id: b.owner_id,
                            capture_points: b.capture_points,
                            max_capture_points: p.max_capture_points,
                        },
                    );
                }
                assert(board.rows@ =~= before.update(
                    i as int,
                    property_put_back(before[i as int], b),
                ));
            }
            m += 1;
        }
    }

    fn find_turns(field: &Vec<(GridPosition, u32)>, p: GridPosition) -> (r: u32)
        ensures
            r == turns_at(field@, p, 0),
    {
        let mut i: usize = 0;
        while i < field.len()
            invariant
                i <= field.len(),
                turns_at(field@, p, 0) == turns_at(field@, p, i as int),
            decreases field.len() - i,
        {
            if field[i].0 == p {
                return field[i].1;
            }
            i += 1;
        }
        u32::MAX
    }

    fn find_field<'a>(
        fields: &'a Vec<DistanceField>,
        target: GridPosition,
        movement_type: MovementType,
        max_movement: u32,
    ) -> (r: Option<&'a Vec<(GridPosition, u32)>>)
        ensures
            field_for(fields@, target, movement_type, max_movement, 0) == (match r {
                Some(turns) => turns@,
                None => Seq::empty(),
            }),
    {
        let mut i: usize = 0;
        while i < fields.len()
            invariant
                i <= fields.len(),
                field_for(fields@, target, movement_type, max_movement, 0) == field_for(
                    fields@,
                    target,
                    movement_type,
                    max_movement,
                    i as int,
                ),
            decreases fields.len() - i,
        {
            if fields[i].target == target && fields[i].movement_type == movement_type
                && fields[i].max_movement == max_movement {
                return Some(&fields[i].turns);
            }
            i += 1;
        }
        None
    }

    /// Where a unit stands after one turn towards the target.
    fn advance(
        map: &GameMap,
        field: &Vec<(GridPosition, u32)>,
        from: GridPosition,
        max_movement: u32,
    ) -> (r: GridPosition)
        ensures
            r == advanced(*map, field@, from, max_movement),
    {
        let turns: u32 = Self::find_turns(field, from);
        if turns == u32::MAX || turns == 0 {
            return from;
        }
        let goal: u32 = turns - 1;
        let mut here = from;
        let mut left: u32 = turns;
        let mut steps: u32 = max_movement;
        while steps > 0
            invariant
                advanced(*map, field@, from, max_movement) == walk(
                    *map,
                    field@,
                    here,
                    left,
                    goal,
                    steps as nat,
                ),
            decreases steps,
        {
            let near = map.get_adjacent(here.x, here.y);
            assert(here == (GridPosition { x: here.x, y: here.y }));
            let mut best = here;
            let mut best_turns: u32 = left;
            let mut n: usize = 0;
            while n < near.len()
                invariant
                    n <= near.len(),
                    (best, best_turns) == nearest(field@, near@, (here, left), n as int),
                decreases near.len() - n,
            {
                let next: u32 = Self::find_turns(field, near[n]);
                if next < best_turns {
                    best_turns = next;
                    best = near[n];
                }
                n += 1;
            }
            if best == here {
                return here;
            }
            if best_turns <= goal {
                return best;
            }
            here = best;
            left = best_turns;
            steps -= 1;
        }
        here
    }

    fn place(board: &mut Board, e: Entity, p: GridPosition)
        ensures
            final(board).rows@ == placed(old(board).rows@, e, p),
    {
        let ghost before = board.rows@;
        if let Some(i) = board.find(e) {
            if board.rows[i].position.is_some() {
                board.rows[i].position = Some(p);
                assert(board.rows@ =~= before.update(
                    i as int,
                    BoardRow { position: Some(p), ..before[i as int] },
                ));
            }
        }
    }

    fn capture(board: &mut Board, p: GridPosition, player: PlayerId)
        ensures
            final(board).rows@ == captured(old(board).rows@, p, player),
    {
        let ghost before = board.rows@;
        let mut i: usize = 0;
        while i < board.rows.len()
            invariant
                i <= board.rows.len(),
                board.rows.len() == before.len(),
                forall|k: int| 0 <= k < i ==> #[trigger] board.rows[k] == taken(before[k], p, player),
                forall|k: int| i <= k < before.len() ==> #[trigger] board.rows[k] == before[k],
            decreases board.rows.len() - i,
        {
            let here: bool = match board.rows[i].position {
                Some(q) => q == p,
                None => false,
            };
            if here {
                if let Some(property) = board.rows[i].property {
                    board.rows[i].property = Some(
                        Property {
                            terrain: property.terrain,
                            owner_id: Some(player),
                            capture_points: property.max_capture_points,
                            max_capture_points: property.max_capture_points,
                        },
                    );
                }
            }
            i += 1;
        }
        assert(board.rows@ =~= captured(before, p, player));
    }

    fn move_member(
        board: &mut Board,
        map: &GameMap,
        fields: &Vec<DistanceField>,
        mission_type: MissionType,
        target: GridPosition,
        player: PlayerId,
        member: Entity,
    )
        ensures
            final(board).rows@ == member_moved(
                old(board).rows@,
                *map,
                fields@,
                mission_type,
                target,
                player,
                member,
            ),
    {
        let ghost before = board.rows@;
        if let Some(i) = board.find(member) {
            let moves = match &board.rows[i].stats {
                Some(stats) => Some((stats.movement_type, stats.max_movement)),
                None => None,
            };
            if let Some((movement_type, max_movement)) = moves {
                if let Some(from) = board.rows[i].position {
                    let to = match Self::find_field(fields, target, movement_type, max_movement) {
                        Some(field) => Self::advance(map, field, from, max_movement),
                        None => {
                            let field: Vec<(GridPosition, u32)> = Vec::new();
                            Self::advance(map, &field, from, max_movement)
                        },
                    };
                    board.rows[i].position = Some(to);
                    assert(board.rows@ =~= before.update(
                        i as int,
                        BoardRow { position: Some(to), ..before[i as int] },
                    ));
                    if mission_type == MissionType::Capture && to == target {
                        Self::capture(board, to, player);
                    }
                }
            }
        }
    }

    /// Plays the plan for one turn on the board: each squad with a target moves towards it.
    pub fn simulate_plan(
        board: &mut Board,
        map: &GameMap,
        fields: &Vec<DistanceField>,
        squads: &Vec<Squad>,
        assignments: &Vec<(SquadId, GridPosition)>,
        perspective_player: PlayerId,
    )
        ensures
            final(board).rows@ == plan_simulated(
                old(board).rows@,
                *map,
                fields@,
                squads@,
                assignments@,
                perspective_player,
                squads.len() as int,
            ),
    {
        let ghost rows = board.rows@;
        let mut n: usize = 0;
        while n < squads.len()
            invariant
                n <= squads.len(),
                board.rows@ == plan_simulated(
                    rows,
                    *map,
                    fields@,
                    squads@,
                    assignments@,
                    perspective_player,
                    n as int,
                ),
            decreases squads.len() - n,
        {
            Self::simulate_squad(board, map, fields, &squads[n], assignments, perspective_player);
            n += 1;
        }
    }

    fn find_target(assignments: &Vec<(SquadId, GridPosition)>, id: SquadId) -> (r: Option<
        GridPosition,
    >)
        ensures
            r == target_of(assignments@, id, 0),
    {
        let mut i: usize = 0;
        while i < assignments.len()
            invariant
                i <= assignments.len(),
                target_of(assignments@, id, 0) == target_of(assignments@, id, i as int),
            decreases assignments.len() - i,
        {
            if assignments[i].0 == id {
                return Some(assignments[i].1);
            }
            i += 1;
        }
        None
    }

    fn simulate_squad(
        board: &mut Board,
        map: &GameMap,
        fields: &Vec<DistanceField>,
        squad: &Squad,
        assignments: &Vec<(SquadId, GridPosition)>,
        player: PlayerId,
    )
        ensures
            final(board).rows@ == squad_moved(
                old(board).rows@,
                *map,
                fields@,
                *squad,
                assignments@,
                player,
            ),
    {
        let target = match Self::find_target(assignments, squad.id) {
            Some(p) => p,
            None => {
                return;
            },
        };
        if squad.mission_type == MissionType::Transport {
            if let Some(cargo) = squad.transport_cargo {
                Self::place(board, cargo, target);
            }
            let ghost landed = board.rows@;
            let mut n: usize = 0;
            while n < squad.members.len()
                invariant
                    n <= squad.members.len(),
                    board.rows@ == all_placed(landed, squad.members@, target, n as int),
                decreases squad.members.len() - n,
            {
                Self::place(board, squad.members[n], target);
                n += 1;
            }
        } else {
            let ghost rows = board.rows@;
            let mut n: usize = 0;
            while n < squad.members.len()
                invariant
                    n <= squad.members.len(),
                    board.rows@ == members_moved(
                        rows,
                        *map,
                        fields@,
                        *squad,
                        target,
                        player,
                        n as int,
                    ),
                decreases squad.members.len() - n,
            {
                Self::move_member(
                    board,
                    map,
                    fields,
                    squad.mission_type,
                    target,
                    player,
                    squad.members[n],
                );
                n += 1;
            }
        }
    }
}

/// The second row is the first one except for where it stands and who holds its building.
pub open spec fn same_but_moved(a: BoardRow, b: BoardRow) -> bool {
    &&& a.entity == b.entity
    &&& a.faction == b.faction
    &&& a.health == b.health
    &&& a.ammo == b.ammo
    &&& a.fuel == b.fuel
    &&& a.stats == b.stats
    &&& a.cargo == b.cargo
    &&& a.transporting == b.transporting
    &&& a.action_completed == b.action_completed
    &&& (a.position is Some <==> b.position is Some)
    &&& match (a.property, b.property) {
        (Some(p), Some(q)) => p.terrain == q.terrain && p.max_capture_points
            == q.max_capture_points,
        (None, None) => true,
        _ => false,
    }
}

/// The two lists are the same but for where things stand and who holds buildings.
pub open spec fn all_same_but_moved(a: Seq<BoardRow>, b: Seq<BoardRow>) -> bool {
    a.len() == b.len() && forall|i: int| 0 <= i < a.len() ==> same_but_moved(#[trigger] a[i], b[i])
}

proof fn lemma_placed(a: Seq<BoardRow>, b: Seq<BoardRow>, e: Entity, p: GridPosition)
    requires
        all_same_but_moved(a, b),
    ensures
        all_same_but_moved(a, placed(b, e, p)),
{
    lemma_row_of(b, e, 0);
    let c = placed(b, e, p);
    assert forall|i: int| 0 <= i < a.len() implies same_but_moved(#[trigger] a[i], c[i]) by {
        assert(same_but_moved(a[i], b[i]));
    }
}

proof fn lemma_all_placed(
    a: Seq<BoardRow>,
    b: Seq<BoardRow>,
    entities: Seq<Entity>,
    p: GridPosition,
    n: int,
)
    requires
        all_same_but_moved(a, b),
        0 <= n <= entities.len(),
    ensures
        all_same_but_moved(a, all_placed(b, entities, p, n)),
    decreases n,
{
    if n > 0 {
        lemma_all_placed(a, b, entities, p, n - 1);
        lemma_placed(a, all_placed(b, entities, p, n - 1), entities[n - 1], p);
    }
}

proof fn lemma_member_moved(
    a: Seq<BoardRow>,
    b: Seq<BoardRow>,
    map: GameMap,
    fields: Seq<DistanceField>,
    mission_type: MissionType,
    target: GridPosition,
    player: PlayerId,
    member: Entity,
)
    requires
        all_same_but_moved(a, b),
    ensures
        all_same_but_moved(a, member_moved(b, map, fields, mission_type, target, player, member)),
{
    lemma_row_of(b, member, 0);
    let c = member_moved(b, map, fields, mission_type, target, player, member);
    assert forall|i: int| 0 <= i < a.len() implies same_but_moved(#[trigger] a[i], c[i]) by {
        assert(same_but_moved(a[i], b[i]));
    }
}

proof fn lemma_members_moved(
    a: Seq<BoardRow>,
    b: Seq<BoardRow>,
    map: GameMap,
    fields: Seq<DistanceField>,
    squad: Squad,
    target: GridPosition,
    player: PlayerId,
    n: int,
)
    requires
        all_same_but_moved(a, b),
        0 <= n <= squad.members.len(),
    ensures
        all_same_but_moved(a, members_moved(b, map, fields, squad, target, player, n)),
    decreases n,
{
    if n > 0 {
        lemma_members_moved(a, b, map, fields, squad, target, player, n - 1);
        lemma_member_moved(
            a,
            members_moved(b, map, fields, squad, target, player, n - 1),
            map,
            fields,
            squad.mission_type,
            target,
            player,
            squad.members[n - 1],
        );
    }
}

/// A look ahead changes nothing but where units stand and who holds buildings.
pub proof fn law_simulation_moves_and_captures_only(
    rows: Seq<BoardRow>,
    map: GameMap,
    fields: Seq<DistanceField>,
    squads: Seq<Squad>,
    assignments: Seq<(SquadId, GridPosition)>,
    player: PlayerId,
    n: int,
)
    requires
        0 <= n <= squads.len(),
    ensures
        all_same_but_moved(
            rows,
            plan_simulated(rows, map, fields, squads, assignments, player, n),
        ),
    decreases n,
{
    if n > 0 {
        law_simulation_moves_and_captures_only(
            rows,
            map,
            fields,
            squads,
            assignments,
            player,
            n - 1,
        );
        let b = plan_simulated(rows, map, fields, squads, assignments, player, n - 1);
        let squad = squads[n - 1];
        if let Some(target) = target_of(assignments, squad.id, 0) {
            if squad.mission_type == MissionType::Transport {
                let landed = match squad.transport_cargo {
                    Some(cargo) => placed(b, cargo, target),
                    None => b,
                };
                if let Some(cargo) = squad.transport_cargo {
                    lemma_placed(rows, b, cargo, target);
                }
                lemma_all_placed(
                    rows,
                    landed,
                    squad.members@,
                    target,
                    squad.members.len() as int,
                );
            } else {
                lemma_members_moved(
                    rows,
                    b,
                    map,
                    fields,
                    squad,
                    target,
                    player,
                    squad.members.len() as int,
                );
            }
        }
    }
}

/// The second row has what the first one has. Where it stands, its health, its ammunition, and who
/// holds its building and how firmly, may differ.
pub open spec fn same_makeup(a: BoardRow, b: BoardRow) -> bool {
    &&& a.entity == b.entity
    &&& a.faction == b.faction
    &&& a.fuel == b.fuel
    &&& a.stats == b.stats
    &&& a.cargo == b.cargo
    &&& a.transporting == b.transporting
    &&& a.action_completed == b.action_completed
    &&& (a.position is Some <==> b.position is Some)
    &&& (a.health is Some <==> b.health is Some)
    &&& (a.ammo is Some <==> b.ammo is Some)
    &&& match (a.property, b.property) {
        (Some(p), Some(q)) => p.terrain == q.terrain && p.max_capture_points
            == q.max_capture_points,
        (None, None) => true,
        _ => false,
    }
}

/// The row that is found for the entity of row `i`, where no entity has two rows.
proof fn lemma_own_row(a: Seq<BoardRow>, b: Seq<BoardRow>, i: int)
    requires
        rows_distinct(a),
        a.len() == b.len(),
        forall|k: int| 0 <= k < a.len() ==> (#[trigger] a[k]).entity == b[k].entity,
        0 <= i < a.len(),
    ensures
        row_of(b, a[i].entity, 0) == Some(i),
{
    lemma_row_of(b, a[i].entity, 0);
    assert(b[i].entity == a[i].entity);
    match row_of(b, a[i].entity, 0) {
        Some(k) => {
            assert(a[k].entity == b[k].entity);
            if k < i {
                assert(a[k].entity != a[i].entity);
            }
        },
        None => {},
    }
}

/// Putting back a list of kept units depends only on what the list holds.
proof fn lemma_units_restored_prefix(
    rows: Seq<BoardRow>,
    a: Seq<UnitBackup>,
    b: Seq<UnitBackup>,
    n: int,
)
    requires
        0 <= n <= a.len(),
        n <= b.len(),
        forall|k: int| 0 <= k < n ==> #[trigger] a[k] == b[k],
    ensures
        units_restored(rows, a, n) == units_restored(rows, b, n),
    decreases n,
{
    if n > 0 {
        lemma_units_restored_prefix(rows, a, b, n - 1);
    }
}

proof fn lemma_properties_restored_prefix(
    rows: Seq<BoardRow>,
    a: Seq<PropertyBackup>,
    b: Seq<PropertyBackup>,
    n: int,
)
    requires
        0 <= n <= a.len(),
        n <= b.len(),
        forall|k: int| 0 <= k < n ==> #[trigger] a[k] == b[k],
    ensures
        properties_restored(rows, a, n) == properties_restored(rows, b, n),
    decreases n,
{
    if n > 0 {
        lemma_properties_restored_prefix(rows, a, b, n - 1);
    }
}

proof fn lemma_units_restored(a: Seq<BoardRow>, b: Seq<BoardRow>, n: int)
    requires
        rows_distinct(a),
        a.len() == b.len(),
        forall|i: int| 0 <= i < a.len() ==> same_makeup(#[trigger] a[i], b[i]),
        0 <= n <= a.len(),
    ensures
        units_of(a, n).len() == n,
        ({
            let c = units_restored(b, units_of(a, n), n);
            &&& c.len() == a.len()
            &&& forall|i: int| 0 <= i < n ==> (#[trigger] c[i]) == (BoardRow {
                property: b[i].property,
                ..a[i]
            })
            &&& forall|i: int| n <= i < a.len() ==> #[trigger] c[i] == b[i]
        }),
    decreases n,
{
    if n > 0 {
        lemma_units_restored(a, b, n - 1);
        let kept = units_of(a, n);
        let fewer = units_of(a, n - 1);
        let c = units_restored(b, fewer, n - 1);
        let i = n - 1;
        assert(same_makeup(a[i], b[i]));
        assert forall|k: int| 0 <= k < a.len() implies (#[trigger] a[k]).entity == c[k].entity by {
            assert(same_makeup(a[k], b[k]));
            if k >= n - 1 {
                assert(c[k] == b[k]);
            }
        }
        lemma_own_row(a, c, i);
        lemma_units_restored_prefix(b, fewer, kept, n - 1);
        assert(c[i] == b[i]);
        let d = units_restored(b, kept, n);
        assert(d == c.update(i, unit_put_back(c[i], kept[i])));
        assert(d[i] == (BoardRow { property: b[i].property, ..a[i] }));
    }
}

proof fn lemma_properties_restored(a: Seq<BoardRow>, b: Seq<BoardRow>, n: int)
    requires
        rows_distinct(a),
        a.len() == b.len(),
        forall|i: int|
            0 <= i < a.len() ==> (#[trigger] b[i]) == (BoardRow { property: b[i].property, ..a[i] }),
        forall|i: int|
            0 <= i < a.len() ==> match ((#[trigger] a[i]).property, b[i].property) {
                (Some(p), Some(q)) => p.terrain == q.terrain && p.max_capture_points
                    == q.max_capture_points,
                (None, None) => true,
                _ => false,
            },
        0 <= n <= a.len(),
    ensures
        ({
            let c = properties_restored(b, properties_of(a, n), properties_of(a, n).len() as int);
            &&& c.len() == a.len()
            &&& forall|i: int| 0 <= i < n ==> (#[trigger] c[i]) == a[i]
            &&& forall|i: int| n <= i < a.len() ==> #[trigger] c[i] == b[i]
        }),
    decreases n,
{
    if n > 0 {
        lemma_properties_restored(a, b, n - 1);
        let kept = properties_of(a, n);
        let fewer = properties_of(a, n - 1);
        let c = properties_restored(b, fewer, fewer.len() as int);
        let i = n - 1;
        assert(b[i] == (BoardRow { property: b[i].property, ..a[i] }));
        assert forall|k: int| 0 <= k < a.len() implies (#[trigger] a[k]).entity == c[k].entity by {
            assert(b[k] == (BoardRow { property: b[k].property, ..a[k] }));
            if k >= n - 1 {
                assert(c[k] == b[k]);
            } else {
                assert(c[k] == a[k]);
            }
        }
        lemma_own_row(a, c, i);
        assert(c[i] == b[i]);
        if a[i].property is Some {
            assert(kept == fewer.push(kept[fewer.len() as int]));
            lemma_properties_restored_prefix(b, fewer, kept, fewer.len() as int);
            let d = properties_restored(b, kept, kept.len() as int);
            assert(d == c.update(i, property_put_back(c[i], kept[fewer.len() as int])));
            assert(d[i] == a[i]);
        } else {
            assert(kept == fewer);
            assert(b[i] == a[i]);
        }
    }
}

/// Whatever was done to where entities stand, to their health and ammunition and to who holds the
/// buildings, putting back what was kept makes the board what it was.
pub proof fn law_restore_is_complete(rows: Seq<BoardRow>, after: Seq<BoardRow>)
    requires
        rows_distinct(rows),
        rows.len() == after.len(),
        forall|i: int| 0 <= i < rows.len() ==> same_makeup(#[trigger] rows[i], after[i]),
    ensures
        restored(
            after,
            units_of(rows, rows.len() as int),
            properties_of(rows, rows.len() as int),
        ) == rows,
{
    let n = rows.len() as int;
    lemma_units_restored(rows, after, n);
    let units = units_of(rows, n);
    let back = units_restored(after, units, n);
    assert forall|i: int| 0 <= i < rows.len() implies match ((#[trigger] rows[i]).property, back[i].property) {
        (Some(p), Some(q)) => p.terrain == q.terrain && p.max_capture_points
            == q.max_capture_points,
        (None, None) => true,
        _ => false,
    } by {
        assert(same_makeup(rows[i], after[i]));
        assert(back[i] == (BoardRow { property: after[i].property, ..rows[i] }));
    }
    assert forall|i: int| 0 <= i < rows.len() implies (#[trigger] back[i]) == (BoardRow {
        property: back[i].property,
        ..rows[i]
    }) by {
        assert(back[i] == (BoardRow { property: after[i].property, ..rows[i] }));
    }
    lemma_properties_restored(rows, back, n);
    assert(restored(after, units, properties_of(rows, n)) =~= rows);
}

/// Putting back what was kept undoes a whole look ahead: the board is what it was.
pub proof fn law_restore_undoes_simulation(
    rows: Seq<BoardRow>,
    map: GameMap,
    fields: Seq<DistanceField>,
    squads: Seq<Squad>,
    assignments: Seq<(SquadId, GridPosition)>,
    player: PlayerId,
)
    requires
        rows_distinct(rows),
    ensures
        restored(
            plan_simulated(rows, map, fields, squads, assignments, player, squads.len() as int),
            units_of(rows, rows.len() as int),
            properties_of(rows, rows.len() as int),
        ) == rows,
{
    let n = squads.len() as int;
    let after = plan_simulated(rows, map, fields, squads, assignments, player, n);
    law_simulation_moves_and_captures_only(rows, map, fields, squads, assignments, player, n);
    assert forall|i: int| 0 <= i < rows.len() implies same_makeup(#[trigger] rows[i], after[i]) by {
        assert(same_but_moved(rows[i], after[i]));
    }
    law_restore_is_complete(rows, after);
}

/// A unit gets from one tile to the other in at most `steps` steps between adjacent tiles.
pub open spec fn within_steps(map: GameMap, from: GridPosition, to: GridPosition, steps: nat) -> bool
    decreases steps,
{
    from == to || (steps > 0 && exists|next: GridPosition|
        #[trigger] map.adjacent(from).contains(next) && within_steps(
            map,
            next,
            to,
            (steps - 1) as nat,
        ))
}

proof fn lemma_nearest(
    field: Seq<(GridPosition, u32)>,
    near: Seq<GridPosition>,
    start: (GridPosition, u32),
    n: int,
)
    requires
        n <= near.len(),
        turns_at(field, start.0, 0) == start.1,
    ensures
        ({
            let r = nearest(field, near, start, n);
            &&& r.1 <= start.1
            &&& turns_at(field, r.0, 0) == r.1
            &&& r == start || near.contains(r.0)
        }),
    decreases n,
{
    if n > 0 {
        lemma_nearest(field, near, start, n - 1);
        assert(near.contains(near[n - 1]));
    }
}

proof fn lemma_walk(
    map: GameMap,
    field: Seq<(GridPosition, u32)>,
    from: GridPosition,
    turns: u32,
    goal: u32,
    steps: nat,
)
    requires
        turns_at(field, from, 0) == turns,
    ensures
        turns_at(field, walk(map, field, from, turns, goal, steps), 0) <= turns,
        within_steps(map, from, walk(map, field, from, turns, goal, steps), steps),
    decreases steps,
{
    if steps > 0 {
        let near = map.adjacent(from);
        let next = nearest(field, near, (from, turns), near.len() as int);
        lemma_nearest(field, near, (from, turns), near.len() as int);
        if next.0 != from {
            if next.1 <= goal {
                assert(near.contains(next.0) && within_steps(map, next.0, next.0, (steps - 1) as nat));
            } else {
                lemma_walk(map, field, next.0, next.1, goal, (steps - 1) as nat);
                let end = walk(map, field, next.0, next.1, goal, (steps - 1) as nat);
                assert(near.contains(next.0) && within_steps(map, next.0, end, (steps - 1) as nat));
            }
        }
    }
}

/// A unit that moves in a look ahead takes no more steps than it can, and ends no farther from
/// the target than it began.
pub proof fn law_simulated_move_is_within_reach(
    map: GameMap,
    field: Seq<(GridPosition, u32)>,
    from: GridPosition,
    max_movement: u32,
)
    ensures
        within_steps(map, from, advanced(map, field, from, max_movement), max_movement as nat),
        turns_at(field, advanced(map, field, from, max_movement), 0) <= turns_at(field, from, 0),
{
    let turns = turns_at(field, from, 0);
    if turns != u32::MAX && turns > 0 {
        lemma_walk(map, field, from, turns, (turns - 1) as u32, max_movement as nat);
    }
}

/// The turns of a tile are those of its first entry; a tile without an entry is never reached.
pub proof fn law_turns_are_as_listed(field: Seq<(GridPosition, u32)>, p: GridPosition, k: int)
    ensures
        0 <= k < field.len() && field[k].0 == p && (forall|j: int|
            0 <= j < k ==> (#[trigger] field[j]).0 != p) ==> turns_at(field, p, 0) == field[k].1,
        (forall|j: int| 0 <= j < field.len() ==> (#[trigger] field[j]).0 != p) ==> turns_at(
            field,
            p,
            0,
        ) == u32::MAX,
{
    lemma_turns_from(field, p, k, 0);
}

proof fn lemma_turns_from(field: Seq<(GridPosition, u32)>, p: GridPosition, k: int, i: int)
    requires
        0 <= i,
    ensures
        i <= k < field.len() && field[k].0 == p && (forall|j: int|
            i <= j < k ==> (#[trigger] field[j]).0 != p) ==> turns_at(field, p, i) == field[k].1,
        (forall|j: int| i <= j < field.len() ==> (#[trigger] field[j]).0 != p) ==> turns_at(
            field,
            p,
            i,
        ) == u32::MAX,
    decreases field.len() - i,
{
    if i < field.len() && field[i].0 != p {
        lemma_turns_from(field, p, k, i + 1);
    }
}

/// The field speaks of the way to the target for such a unit.
pub open spec fn leads_to(field: DistanceField, target: GridPosition, stats: UnitStats) -> bool {
    field.target == target && field.movement_type == stats.movement_type && field.max_movement
        == stats.max_movement
}

/// The tile is where one turn leads to from another: to the first of the adjacent tiles from which
/// the target is fewest turns away, if it is fewer from there. A unit that is at the target, cannot
/// get there or does not move stays where it is.
pub open spec fn is_one_turn_on(
    map: GameMap,
    field: Seq<(GridPosition, u32)>,
    from: GridPosition,
    to: GridPosition,
    max_movement: u32,
) -> bool {
    let turns = turns_at(field, from, 0);
    let near = map.adjacent(from);
    if turns == u32::MAX || turns == 0 || max_movement == 0 || forall|j: int|
        0 <= j < near.len() ==> turns_at(field, #[trigger] near[j], 0) >= turns {
        to == from
    } else {
        exists|k: int|
            {
                &&& 0 <= k < near.len()
                &&& #[trigger] near[k] == to
                &&& turns_at(field, to, 0) < turns
                &&& forall|j: int|
                    0 <= j < near.len() ==> turns_at(field, to, 0) <= turns_at(
                        field,
                        #[trigger] near[j],
                        0,
                    )
                &&& forall|j: int|
                    0 <= j < k ==> turns_at(field, to, 0) < turns_at(field, #[trigger] near[j], 0)
            }
    }
}

proof fn lemma_first_nearest(
    field: Seq<(GridPosition, u32)>,
    near: Seq<GridPosition>,
    start: (GridPosition, u32),
    n: int,
)
    requires
        0 <= n <= near.len(),
    ensures
        ({
            let r = nearest(field, near, start, n);
            &&& r.1 <= start.1
            &&& forall|j: int| 0 <= j < n ==> r.1 <= turns_at(field, #[trigger] near[j], 0)
            &&& r == start || exists|k: int|
                {
                    &&& 0 <= k < n
                    &&& #[trigger] near[k] == r.0
                    &&& r.1 == turns_at(field, r.0, 0)
                    &&& r.1 < start.1
                    &&& forall|j: int|
                        0 <= j < k ==> r.1 < turns_at(field, #[trigger] near[j], 0)
                }
        }),
    decreases n,
{
    if n > 0 {
        lemma_first_nearest(field, near, start, n - 1);
        let best = nearest(field, near, start, n - 1);
        let turns = turns_at(field, near[n - 1], 0);
        if turns < best.1 {
            assert forall|j: int| 0 <= j < n - 1 implies turns < turns_at(
                field,
                #[trigger] near[j],
                0,
            ) by {
                assert(best.1 <= turns_at(field, near[j], 0));
            }
            assert(near[n - 1] == nearest(field, near, start, n).0);
        } else if best != start {
            let k = choose|k: int|
                {
                    &&& 0 <= k < n - 1
                    &&& #[trigger] near[k] == best.0
                    &&& best.1 == turns_at(field, best.0, 0)
                    &&& best.1 < start.1
                    &&& forall|j: int|
                        0 <= j < k ==> best.1 < turns_at(field, #[trigger] near[j], 0)
                };
            assert(near[k] == best.0);
        }
    }
}

/// A look ahead of one turn takes a unit to the next tile on its way.
pub proof fn law_advance_is_one_turn(
    map: GameMap,
    field: Seq<(GridPosition, u32)>,
    from: GridPosition,
    max_movement: u32,
)
    ensures
        is_one_turn_on(map, field, from, advanced(map, field, from, max_movement), max_movement),
{
    let turns = turns_at(field, from, 0);
    let near = map.adjacent(from);
    if turns != u32::MAX && turns > 0 && max_movement > 0 {
        let next = nearest(field, near, (from, turns), near.len() as int);
        lemma_first_nearest(field, near, (from, turns), near.len() as int);
        if next != (from, turns) {
            let k = choose|k: int|
                {
                    &&& 0 <= k < near.len()
                    &&& #[trigger] near[k] == next.0
                    &&& next.1 == turns_at(field, next.0, 0)
                    &&& next.1 < turns
                    &&& forall|j: int|
                        0 <= j < k ==> next.1 < turns_at(field, #[trigger] near[j], 0)
                };
            assert(near[k] == next.0);
            assert(advanced(map, field, from, max_movement) == next.0);
        } else {
            assert forall|j: int| 0 <= j < near.len() implies turns_at(
                field,
                #[trigger] near[j],
                0,
            ) >= turns by {}
        }
    }
}

/// What one turn towards the target does to a unit: one with stats and a position stands one turn
/// further on, by the first field that speaks of its way; without such a field it stays.
pub open spec fn takes_one_turn(
    map: GameMap,
    fields: Seq<DistanceField>,
    target: GridPosition,
    before: BoardRow,
    after: Option<GridPosition>,
) -> bool {
    match (before.stats, before.position) {
        (Some(stats), Some(from)) => {
            &&& (forall|k: int|
                0 <= k < fields.len() ==> !leads_to(#[trigger] fields[k], target, stats))
                ==> after == Some(from)
            &&& forall|k: int|
                0 <= k < fields.len() && leads_to(#[trigger] fields[k], target, stats) && (forall|
                    j: int,
                | 0 <= j < k ==> !leads_to(#[trigger] fields[j], target, stats)) ==> after is Some
                    && is_one_turn_on(
                    map,
                    fields[k].turns@,
                    from,
                    after->0,
                    stats.max_movement,
                )
        },
        _ => after == before.position,
    }
}

/// Where a unit stands after its turn.
spec fn end_of(
    map: GameMap,
    fields: Seq<DistanceField>,
    target: GridPosition,
    row: BoardRow,
) -> Option<GridPosition> {
    match (row.stats, row.position) {
        (Some(stats), Some(from)) => Some(
            advanced(
                map,
                field_for(fields, target, stats.movement_type, stats.max_movement, 0),
                from,
                stats.max_movement,
            ),
        ),
        _ => row.position,
    }
}

proof fn lemma_field_from(
    fields: Seq<DistanceField>,
    target: GridPosition,
    stats: UnitStats,
    i: int,
)
    requires
        0 <= i,
    ensures
        (forall|k: int| i <= k < fields.len() ==> !leads_to(#[trigger] fields[k], target, stats))
            ==> field_for(fields, target, stats.movement_type, stats.max_movement, i) == Seq::<
            (GridPosition, u32),
        >::empty(),
        forall|k: int|
            i <= k < fields.len() && leads_to(#[trigger] fields[k], target, stats) && (forall|j: int|
                i <= j < k ==> !leads_to(#[trigger] fields[j], target, stats)) ==> field_for(
                fields,
                target,
                stats.movement_type,
                stats.max_movement,
                i,
            ) == fields[k].turns@,
    decreases fields.len() - i,
{
    if i < fields.len() {
        if !leads_to(fields[i], target, stats) {
            lemma_field_from(fields, target, stats, i + 1);
        } else {
            assert forall|k: int|
                i <= k < fields.len() && leads_to(#[trigger] fields[k], target, stats) && (forall|
                    j: int,
                | i <= j < k ==> !leads_to(#[trigger] fields[j], target, stats)) implies k == i by {
                if k > i {
                    assert(!leads_to(fields[i], target, stats));
                }
            }
        }
    }
}

proof fn lemma_end_is_one_turn(
    map: GameMap,
    fields: Seq<DistanceField>,
    target: GridPosition,
    row: BoardRow,
)
    ensures
        takes_one_turn(map, fields, target, row, end_of(map, fields, target, row)),
{
    if let (Some(stats), Some(from)) = (row.stats, row.position) {
        let field = field_for(fields, target, stats.movement_type, stats.max_movement, 0);
        lemma_field_from(fields, target, stats, 0);
        law_advance_is_one_turn(map, field, from, stats.max_movement);
        if forall|k: int|
            0 <= k < fields.len() ==> !leads_to(#[trigger] fields[k], target, stats) {
            law_turns_are_as_listed(field, from, 0);
        }
    }
}

/// One of the first `n` members is a unit whose turn ends at the target.
spec fn some_arrive(
    rows: Seq<BoardRow>,
    map: GameMap,
    fields: Seq<DistanceField>,
    squad: Squad,
    target: GridPosition,
    n: int,
) -> bool {
    exists|m: int, k: int|
        0 <= m < n && 0 <= k < rows.len() && (#[trigger] rows[k]).entity
            == #[trigger] squad.members[m] && rows[k].stats is Some && end_of(
            map,
            fields,
            target,
            rows[k],
        ) == Some(target)
}

proof fn lemma_member_effect(
    rows: Seq<BoardRow>,
    map: GameMap,
    fields: Seq<DistanceField>,
    mission_type: MissionType,
    target: GridPosition,
    player: PlayerId,
    member: Entity,
    k: int,
)
    requires
        rows_distinct(rows),
        0 <= k < rows.len(),
    ensures
        ({
            let after = member_moved(rows, map, fields, mission_type, target, player, member);
            let arrives = mission_type == MissionType::Capture && exists|r: int|
                0 <= r < rows.len() && (#[trigger] rows[r]).entity == member && rows[r].stats is Some
                    && end_of(map, fields, target, rows[r]) == Some(target);
            &&& after.len() == rows.len()
            &&& same_but_moved(rows[k], after[k])
            &&& after[k].position == (if rows[k].entity == member {
                end_of(map, fields, target, rows[k])
            } else {
                rows[k].position
            })
            &&& rows[k].entity != member ==> after[k].property == (if arrives {
                taken(rows[k], target, player).property
            } else {
                rows[k].property
            })
        }),
{
    assert(same_but_moved(rows[k], rows[k]));
    assert(all_same_but_moved(rows, rows));
    lemma_member_moved(rows, rows, map, fields, mission_type, target, player, member);
    lemma_row_of(rows, member, 0);
    if rows[k].entity == member {
        lemma_own_row(rows, rows, k);
    }
    match row_of(rows, member, 0) {
        Some(i) => {
            assert forall|r: int| 0 <= r < rows.len() && (
            #[trigger] rows[r]).entity == member implies r == i by {
                if r < i {
                    assert(rows[r].entity != rows[i].entity);
                } else if i < r {
                    assert(rows[i].entity != rows[r].entity);
                }
            }
            assert(rows[i].entity == member);
        },
        None => {},
    }
}

proof fn lemma_members_effect(
    rows: Seq<BoardRow>,
    map: GameMap,
    fields: Seq<DistanceField>,
    squad: Squad,
    target: GridPosition,
    player: PlayerId,
    n: int,
    k: int,
)
    requires
        rows_distinct(rows),
        squad.members@.no_duplicates(),
        0 <= n <= squad.members.len(),
        0 <= k < rows.len(),
    ensures
        ({
            let after = members_moved(rows, map, fields, squad, target, player, n);
            &&& after.len() == rows.len()
            &&& same_but_moved(rows[k], after[k])
            &&& after[k].position == (if squad.members@.take(n).contains(rows[k].entity) {
                end_of(map, fields, target, rows[k])
            } else {
                rows[k].position
            })
            &&& !squad.members@.take(n).contains(rows[k].entity) ==> after[k].property == (
            if squad.mission_type == MissionType::Capture && some_arrive(
                rows,
                map,
                fields,
                squad,
                target,
                n,
            ) {
                taken(rows[k], target, player).property
            } else {
                rows[k].property
            })
        }),
    decreases n,
{
    if n > 0 {
        let before = members_moved(rows, map, fields, squad, target, player, n - 1);
        let member = squad.members[n - 1];
        let some = squad.members@.take(n);
        let fewer = squad.members@.take(n - 1);
        lemma_members_effect(rows, map, fields, squad, target, player, n - 1, k);
        assert forall|r: int| 0 <= r < rows.len() implies same_but_moved(
            #[trigger] rows[r],
            before[r],
        ) && (rows[r].entity == member ==> before[r].position == rows[r].position) by {
            lemma_members_effect(rows, map, fields, squad, target, player, n - 1, r);
            if fewer.contains(member) {
                let m = choose|m: int| 0 <= m < fewer.len() && fewer[m] == member;
                assert(squad.members@[m] == squad.members@[n - 1]);
            }
        }
        assert(rows_distinct(before)) by {
            assert forall|i: int, j: int| 0 <= i < j < before.len() implies (
            #[trigger] before[i]).entity != (#[trigger] before[j]).entity by {
                assert(same_but_moved(rows[i], before[i]));
                assert(same_but_moved(rows[j], before[j]));
            }
        }
        assert(same_but_moved(rows[k], before[k]));
        lemma_member_effect(
            before,
            map,
            fields,
            squad.mission_type,
            target,
            player,
            member,
            k,
        );
        assert(some =~= fewer.push(member));
        assert(some.contains(rows[k].entity) <==> fewer.contains(rows[k].entity) || rows[k].entity
            == member) by {
            if fewer.contains(rows[k].entity) {
                let m = choose|m: int| 0 <= m < fewer.len() && fewer[m] == rows[k].entity;
                assert(some[m] == rows[k].entity);
            }
            assert(some[n - 1] == member);
        }
        if rows[k].entity == member {
            if fewer.contains(member) {
                let m = choose|m: int| 0 <= m < fewer.len() && fewer[m] == member;
                assert(squad.members@[m] == squad.members@[n - 1]);
            }
        }
        let now = exists|r: int|
            0 <= r < before.len() && (#[trigger] before[r]).entity == member && before[r].stats is Some
                && end_of(map, fields, target, before[r]) == Some(target);
        assert(some_arrive(rows, map, fields, squad, target, n) <==> some_arrive(
            rows,
            map,
            fields,
            squad,
            target,
            n - 1,
        ) || now) by {
            if some_arrive(rows, map, fields, squad, target, n - 1) {
                let (m, r) = choose|m: int, r: int|
                    0 <= m < n - 1 && 0 <= r < rows.len() && (#[trigger] rows[r]).entity
                        == #[trigger] squad.members[m] && rows[r].stats is Some && end_of(
                        map,
                        fields,
                        target,
                        rows[r],
                    ) == Some(target);
                assert(rows[r].entity == squad.members[m]);
            }
            if now {
                let r = choose|r: int|
                    0 <= r < before.len() && (#[trigger] before[r]).entity == member
                        && before[r].stats is Some && end_of(map, fields, target, before[r])
                        == Some(target);
                assert(same_but_moved(rows[r], before[r]));
                assert(rows[r].entity == squad.members[n - 1]);
            }
            if some_arrive(rows, map, fields, squad, target, n) {
                let (m, r) = choose|m: int, r: int|
                    0 <= m < n && 0 <= r < rows.len() && (#[trigger] rows[r]).entity
                        == #[trigger] squad.members[m] && rows[r].stats is Some && end_of(
                        map,
                        fields,
                        target,
                        rows[r],
                    ) == Some(target);
                if m < n - 1 {
                    assert(rows[r].entity == squad.members[m]);
                } else {
                    assert(same_but_moved(rows[r], before[r]));
                    assert(before[r].entity == member);
                }
            }
        }
    } else {
        assert(squad.members@.take(0) =~= Seq::<Entity>::empty());
    }
}

proof fn lemma_landing_effect(
    rows: Seq<BoardRow>,
    entities: Seq<Entity>,
    p: GridPosition,
    n: int,
    k: int,
)
    requires
        rows_distinct(rows),
        0 <= n <= entities.len(),
        0 <= k < rows.len(),
    ensures
        ({
            let after = all_placed(rows, entities, p, n);
            &&& after.len() == rows.len()
            &&& same_but_moved(rows[k], after[k])
            &&& after[k].property == rows[k].property
            &&& after[k].position == (if entities.take(n).contains(rows[k].entity)
                && rows[k].position is Some {
                Some(p)
            } else {
                rows[k].position
            })
        }),
    decreases n,
{
    if n > 0 {
        let before = all_placed(rows, entities, p, n - 1);
        let some = entities.take(n);
        let fewer = entities.take(n - 1);
        let e = entities[n - 1];
        assert forall|r: int| 0 <= r < rows.len() implies same_but_moved(
            #[trigger] rows[r],
            before[r],
        ) by {
            lemma_landing_effect(rows, entities, p, n - 1, r);
        }
        lemma_landing_effect(rows, entities, p, n - 1, k);
        lemma_row_of(before, e, 0);
        assert(same_but_moved(rows[k], before[k]));
        if rows[k].entity == e {
            lemma_own_row(rows, before, k);
        }
        assert(some =~= fewer.push(e));
        assert(some.contains(rows[k].entity) <==> fewer.contains(rows[k].entity) || rows[k].entity
            == e) by {
            if fewer.contains(rows[k].entity) {
                let m = choose|m: int| 0 <= m < fewer.len() && fewer[m] == rows[k].entity;
                assert(some[m] == rows[k].entity);
            }
            assert(some[n - 1] == e);
        }
    } else {
        assert(entities.take(0) =~= Seq::<Entity>::empty());
    }
}

/// The squad moves the unit: it is a member, or what a transport squad carries.
pub open spec fn moves_unit(squad: Squad, e: Entity) -> bool {
    squad.members@.contains(e) || (squad.mission_type == MissionType::Transport
        && squad.transport_cargo == Some(e))
}

/// No squad lists a member twice, and no unit is moved by two squads.
pub open spec fn each_unit_moves_once(squads: Seq<Squad>) -> bool {
    &&& forall|s: int| 0 <= s < squads.len() ==> (#[trigger] squads[s]).members@.no_duplicates()
    &&& forall|s: int, t: int, e: Entity|
        0 <= s < t < squads.len() ==> !(#[trigger] moves_unit(squads[s], e)
            && #[trigger] moves_unit(squads[t], e))
}

/// The assignments send the squad to the target: the first one that names it does.
pub open spec fn sends(
    assignments: Seq<(SquadId, GridPosition)>,
    id: SquadId,
    target: GridPosition,
) -> bool {
    exists|a: int|
        0 <= a < assignments.len() && #[trigger] assignments[a] == (id, target) && forall|b: int|
            0 <= b < a ==> (#[trigger] assignments[b]).0 != id
}

proof fn lemma_target_from(assignments: Seq<(SquadId, GridPosition)>, id: SquadId, i: int)
    requires
        0 <= i <= assignments.len(),
        forall|b: int| 0 <= b < i ==> (#[trigger] assignments[b]).0 != id,
    ensures
        forall|target: GridPosition|
            target_of(assignments, id, i) == Some(target) <==> #[trigger] sends(
                assignments,
                id,
                target,
            ),
    decreases assignments.len() - i,
{
    if i < assignments.len() && assignments[i].0 != id {
        lemma_target_from(assignments, id, i + 1);
    } else if i < assignments.len() {
        assert forall|target: GridPosition|
            target_of(assignments, id, i) == Some(target) <==> #[trigger] sends(
                assignments,
                id,
                target,
            ) by {
            if target == assignments[i].1 {
                assert(assignments[i] == (id, target));
            }
            if sends(assignments, id, target) {
                let a = choose|a: int|
                    0 <= a < assignments.len() && #[trigger] assignments[a] == (id, target)
                        && forall|b: int| 0 <= b < a ==> (#[trigger] assignments[b]).0 != id;
                if i < a {
                    assert(assignments[i].0 != id);
                }
                if a < i {
                    assert(assignments[a].0 != id);
                }
            }
        }
    }
}

/// Where a squad that is sent to the target leaves a unit that it moves.
pub open spec fn is_moved_to(
    map: GameMap,
    fields: Seq<DistanceField>,
    squad: Squad,
    target: GridPosition,
    before: BoardRow,
    after: Option<GridPosition>,
) -> bool {
    if squad.mission_type == MissionType::Transport {
        after == (if before.position is Some {
            Some(target)
        } else {
            None
        })
    } else {
        takes_one_turn(map, fields, target, before, after)
    }
}

proof fn lemma_squad_effect(
    rows: Seq<BoardRow>,
    map: GameMap,
    fields: Seq<DistanceField>,
    squad: Squad,
    assignments: Seq<(SquadId, GridPosition)>,
    player: PlayerId,
    k: int,
)
    requires
        rows_distinct(rows),
        squad.members@.no_duplicates(),
        0 <= k < rows.len(),
    ensures
        ({
            let after = squad_moved(rows, map, fields, squad, assignments, player);
            &&& after.len() == rows.len()
            &&& same_but_moved(rows[k], after[k])
            &&& match target_of(assignments, squad.id, 0) {
                Some(target) => {
                    &&& moves_unit(squad, rows[k].entity) ==> is_moved_to(
                        map,
                        fields,
                        squad,
                        target,
                        rows[k],
                        after[k].position,
                    )
                    &&& !moves_unit(squad, rows[k].entity) ==> after[k].position == rows[k].position
                    &&& !moves_unit(squad, rows[k].entity) ==> after[k].property == (
                    if squad.mission_type == MissionType::Capture && some_arrive(
                        rows,
                        map,
                        fields,
                        squad,
                        target,
                        squad.members.len() as int,
                    ) {
                        taken(rows[k], target, player).property
                    } else {
                        rows[k].property
                    })
                },
                None => after[k] == rows[k],
            }
        }),
{
    let all = squad.members@;
    assert(all.take(all.len() as int) =~= all);
    assert(same_but_moved(rows[k], rows[k]));
    if let Some(target) = target_of(assignments, squad.id, 0) {
        if squad.mission_type == MissionType::Transport {
            let landed = match squad.transport_cargo {
                Some(cargo) => placed(rows, cargo, target),
                None => rows,
            };
            if let Some(cargo) = squad.transport_cargo {
                let one = seq![cargo];
                assert(all_placed(rows, one, target, 0) == rows);
                assert(all_placed(rows, one, target, 1) == placed(
                    all_placed(rows, one, target, 0),
                    one[0],
                    target,
                ));
                assert(one.take(1) =~= one);
                assert forall|r: int| 0 <= r < rows.len() implies same_but_moved(
                    #[trigger] rows[r],
                    landed[r],
                ) && landed[r].property == rows[r].property by {
                    lemma_landing_effect(rows, one, target, 1, r);
                }
                lemma_landing_effect(rows, one, target, 1, k);
                assert(one.contains(rows[k].entity) <==> rows[k].entity == cargo) by {
                    assert(one[0] == cargo);
                }
            } else {
                assert forall|r: int| 0 <= r < rows.len() implies same_but_moved(
                    #[trigger] rows[r],
                    landed[r],
                ) by {}
            }
            assert(landed.len() == rows.len());
            assert(rows_distinct(landed)) by {
                assert forall|i: int, j: int| 0 <= i < j < landed.len() implies (
                #[trigger] landed[i]).entity != (#[trigger] landed[j]).entity by {
                    assert(same_but_moved(rows[i], landed[i]));
                    assert(same_but_moved(rows[j], landed[j]));
                }
            }
            assert(same_but_moved(rows[k], landed[k]));
            lemma_landing_effect(landed, all, target, all.len() as int, k);
        } else {
            lemma_members_effect(
                rows,
                map,
                fields,
                squad,
                target,
                player,
                all.len() as int,
                k,
            );
            lemma_end_is_one_turn(map, fields, target, rows[k]);
        }
    }
}

proof fn lemma_plan_effect(
    rows: Seq<BoardRow>,
    map: GameMap,
    fields: Seq<DistanceField>,
    squads: Seq<Squad>,
    assignments: Seq<(SquadId, GridPosition)>,
    player: PlayerId,
    n: int,
    k: int,
)
    requires
        rows_distinct(rows),
        each_unit_moves_once(squads),
        0 <= n <= squads.len(),
        0 <= k < rows.len(),
    ensures
        ({
            let after = plan_simulated(rows, map, fields, squads, assignments, player, n);
            &&& after.len() == rows.len()
            &&& same_but_moved(rows[k], after[k])
            &&& rows_distinct(after)
            &&& (forall|s: int|
                0 <= s < n ==> !(moves_unit(#[trigger] squads[s], rows[k].entity) && target_of(
                    assignments,
                    squads[s].id,
                    0,
                ) is Some)) ==> after[k].position == rows[k].position
            &&& forall|s: int|
                0 <= s < n && moves_unit(#[trigger] squads[s], rows[k].entity) ==> match target_of(
                    assignments,
                    squads[s].id,
                    0,
                ) {
                    Some(target) => is_moved_to(
                        map,
                        fields,
                        squads[s],
                        target,
                        rows[k],
                        after[k].position,
                    ),
                    None => after[k].position == rows[k].position,
                }
        }),
    decreases n,
{
    assert(same_but_moved(rows[k], rows[k]));
    if n > 0 {
        let before = plan_simulated(rows, map, fields, squads, assignments, player, n - 1);
        let after = plan_simulated(rows, map, fields, squads, assignments, player, n);
        let last = squads[n - 1];
        let e = rows[k].entity;
        lemma_plan_effect(rows, map, fields, squads, assignments, player, n - 1, k);
        assert(last.members@.no_duplicates());
        assert forall|r: int| 0 <= r < rows.len() implies same_but_moved(
            #[trigger] rows[r],
            after[r],
        ) && after.len() == rows.len() by {
            lemma_plan_effect(rows, map, fields, squads, assignments, player, n - 1, r);
            lemma_squad_effect(before, map, fields, last, assignments, player, r);
        }
        assert(same_but_moved(rows[k], after[k]));
        assert(rows_distinct(after)) by {
            assert forall|i: int, j: int| 0 <= i < j < after.len() implies (
            #[trigger] after[i]).entity != (#[trigger] after[j]).entity by {
                assert(same_but_moved(rows[i], after[i]));
                assert(same_but_moved(rows[j], after[j]));
            }
        }
        lemma_squad_effect(before, map, fields, last, assignments, player, k);
        assert(before[k].entity == e);
        if moves_unit(last, e) {
            assert forall|s: int| 0 <= s < n - 1 implies !moves_unit(#[trigger] squads[s], e) by {
                assert(!(moves_unit(squads[s], e) && moves_unit(squads[n - 1], e)));
            }
            assert(before[k].position == rows[k].position);
            assert(before[k].stats == rows[k].stats);
        }
    }
}

/// In a look ahead every unit that a squad with a target moves gets one turn, from its own tile: a
/// member goes one turn on towards the target of its squad, and a transport squad counts as landed.
/// Nobody else moves. This goes for plans in which each unit moves once.
pub proof fn law_every_unit_moves_once(
    rows: Seq<BoardRow>,
    map: GameMap,
    fields: Seq<DistanceField>,
    squads: Seq<Squad>,
    assignments: Seq<(SquadId, GridPosition)>,
    player: PlayerId,
    k: int,
)
    requires
        rows_distinct(rows),
        each_unit_moves_once(squads),
        0 <= k < rows.len(),
    ensures
        ({
            let after = plan_simulated(
                rows,
                map,
                fields,
                squads,
                assignments,
                player,
                squads.len() as int,
            );
            &&& after[k].entity == rows[k].entity
            &&& forall|s: int, target: GridPosition|
                0 <= s < squads.len() && moves_unit(#[trigger] squads[s], rows[k].entity)
                    && #[trigger] sends(assignments, squads[s].id, target) ==> is_moved_to(
                    map,
                    fields,
                    squads[s],
                    target,
                    rows[k],
                    after[k].position,
                )
            &&& (forall|s: int, target: GridPosition|
                0 <= s < squads.len() && moves_unit(#[trigger] squads[s], rows[k].entity)
                    ==> !#[trigger] sends(assignments, squads[s].id, target))
                ==> after[k].position == rows[k].position
        }),
{
    let n = squads.len() as int;
    let e = rows[k].entity;
    lemma_plan_effect(rows, map, fields, squads, assignments, player, n, k);
    assert forall|s: int, target: GridPosition|
        0 <= s < squads.len() && moves_unit(#[trigger] squads[s], e) && #[trigger] sends(
            assignments,
            squads[s].id,
            target,
        ) implies target_of(assignments, squads[s].id, 0) == Some(target) by {
        lemma_target_from(assignments, squads[s].id, 0);
    }
    if forall|s: int, target: GridPosition|
        0 <= s < squads.len() && moves_unit(#[trigger] squads[s], e) ==> !#[trigger] sends(
            assignments,
            squads[s].id,
            target,
        ) {
        assert forall|s: int| 0 <= s < n implies !(moves_unit(#[trigger] squads[s], e)
            && target_of(assignments, squads[s].id, 0) is Some) by {
            lemma_target_from(assignments, squads[s].id, 0);
            if let Some(target) = target_of(assignments, squads[s].id, 0) {
                assert(sends(assignments, squads[s].id, target));
            }
        }
    }
}

/// In a look ahead with one squad a building at the target falls to the player, with all its
/// capture points, exactly if the squad is to capture and one of its members ends there. Nothing
/// else changes about buildings.
pub proof fn law_capture_takes_an_arrival(
    rows: Seq<BoardRow>,
    map: GameMap,
    fields: Seq<DistanceField>,
    squad: Squad,
    assignments: Seq<(SquadId, GridPosition)>,
    target: GridPosition,
    player: PlayerId,
    k: int,
)
    requires
        rows_distinct(rows),
        squad.members@.no_duplicates(),
        sends(assignments, squad.id, target),
        0 <= k < rows.len(),
        !moves_unit(squad, rows[k].entity),
    ensures
        ({
            let after = plan_simulated(
                rows,
                map,
                fields,
                seq![squad],
                assignments,
                player,
                1,
            );
            let arrived = exists|r: int|
                0 <= r < rows.len() && squad.members@.contains((#[trigger] rows[r]).entity)
                    && rows[r].stats is Some && after[r].position == Some(target);
            match rows[k].property {
                Some(p) => after[k].property matches Some(q) && {
                    &&& q.terrain == p.terrain
                    &&& q.max_capture_points == p.max_capture_points
                    &&& if squad.mission_type == MissionType::Capture && arrived
                        && rows[k].position == Some(target) {
                        q.owner_id == Some(player) && q.capture_points == p.max_capture_points
                    } else {
                        q.owner_id == p.owner_id && q.capture_points == p.capture_points
                    }
                },
                None => after[k].property is None,
            }
        }),
{
    let one = seq![squad];
    assert(plan_simulated(rows, map, fields, one, assignments, player, 0) == rows);
    let after = plan_simulated(rows, map, fields, one, assignments, player, 1);
    assert(after == squad_moved(rows, map, fields, one[0], assignments, player));
    lemma_target_from(assignments, squad.id, 0);
    assert(target_of(assignments, squad.id, 0) == Some(target));
    lemma_squad_effect(rows, map, fields, squad, assignments, player, k);
    let all = squad.members@;
    let n = all.len() as int;
    let arrived = exists|r: int|
        0 <= r < rows.len() && squad.members@.contains((#[trigger] rows[r]).entity)
            && rows[r].stats is Some && after[r].position == Some(target);
    if squad.mission_type == MissionType::Capture {
        assert(all.take(n) =~= all);
        assert(arrived <==> some_arrive(rows, map, fields, squad, target, n)) by {
            if arrived {
                let r = choose|r: int|
                    0 <= r < rows.len() && squad.members@.contains((#[trigger] rows[r]).entity)
                        && rows[r].stats is Some && after[r].position == Some(target);
                lemma_members_effect(rows, map, fields, squad, target, player, n, r);
                let m = choose|m: int| 0 <= m < n && all[m] == rows[r].entity;
                assert(rows[r].entity == squad.members[m]);
            }
            if some_arrive(rows, map, fields, squad, target, n) {
                let (m, r) = choose|m: int, r: int|
                    0 <= m < n && 0 <= r < rows.len() && (#[trigger] rows[r]).entity
                        == #[trigger] squad.members[m] && rows[r].stats is Some && end_of(
                        map,
                        fields,
                        target,
                        rows[r],
                    ) == Some(target);
                lemma_members_effect(rows, map, fields, squad, target, player, n, r);
                assert(all.contains(all[m]));
                assert(all.contains(rows[r].entity));
            }
        }
    }
}

} // verus!
