use island_command::board::{Board, BoardRow, Property};
use island_command::entity::{insert_entity, sort_entities, Entity};
use island_command::grid::{
    manhattan_distance, sort_positions, GameMap, GridPosition, GridTopology, Terrain,
};
use island_command::islands::IslandMap;
use island_command::order::{least_index, stable_order};
use island_command::simulation::{AiSimulationState, DistanceField};
use island_command::squad::{MissionPhase, MissionType, Squad, SquadId};
use island_command::units::{Ammo, Health, MovementType, PlayerId, UnitStats, UnitType};

fn at(x: usize, y: usize) -> GridPosition {
    GridPosition { x, y }
}

#[test]
fn terrain_is_read_back_where_it_was_set() {
    let mut map = GameMap::new(3, 2, Terrain::Sea, GridTopology::Square);
    assert_eq!(map.set_terrain(2, 1, Terrain::City), Ok(()));
    assert_eq!(map.set_terrain(3, 0, Terrain::City), Err(()));
    assert_eq!(map.get_terrain(2, 1), Some(Terrain::City));
    assert_eq!(map.get_terrain(1, 1), Some(Terrain::Sea));
    assert_eq!(map.get_terrain(0, 2), None);
}

#[test]
fn neighbours_and_distances() {
    let square = GameMap::new(3, 3, Terrain::Plains, GridTopology::Square);
    assert_eq!(
        square.get_adjacent(1, 1),
        vec![at(1, 0), at(1, 2), at(0, 1), at(2, 1)]
    );
    assert_eq!(square.get_adjacent(0, 0), vec![at(0, 1), at(1, 0)]);
    assert_eq!(square.distance(at(0, 0), at(2, 1)), 3);
    let hex = GameMap::new(4, 4, Terrain::Plains, GridTopology::Hex);
    assert_eq!(hex.distance(at(0, 1), at(1, 2)), 1);
    assert_eq!(hex.distance(at(0, 0), at(1, 2)), 2);
    assert_eq!(hex.get_adjacent(1, 1).len(), 6);
    assert_eq!(manhattan_distance(at(5, 1), at(2, 3)), 5);
}

#[test]
fn land_that_touches_is_one_island() {
    let mut map = GameMap::new(5, 3, Terrain::Sea, GridTopology::Square);
    for (x, y) in [(0, 0), (0, 1), (2, 0), (4, 2)] {
        map.set_terrain(x, y, Terrain::Plains).unwrap();
    }
    let islands = IslandMap::analyze(&map);
    assert_eq!(islands.islands.len(), 3);
    let id = |p: GridPosition| islands.get_island_at(&p).map(|island| island.id);
    assert_eq!(id(at(0, 0)), id(at(0, 1)));
    assert_ne!(id(at(0, 0)), id(at(2, 0)));
    assert_ne!(id(at(2, 0)), id(at(4, 2)));
    assert_eq!(id(at(1, 0)), None);
    assert_eq!(id(at(9, 9)), None);
}

#[test]
fn sorting_is_stable_and_finds_the_first_least() {
    let keys = vec![vec![2, 0], vec![1, 9], vec![1], vec![1, 9]];
    assert_eq!(stable_order(&keys), vec![2, 1, 3, 0]);
    assert_eq!(least_index(&keys), Some(2));
    assert_eq!(least_index(&vec![]), None);
    assert_eq!(
        sort_positions(&vec![at(1, 1), at(0, 0), at(1, 1), at(0, 1)]),
        vec![at(0, 0), at(0, 1), at(1, 1)]
    );
    let mut entities = sort_entities(&vec![
        Entity::from_raw(3),
        Entity::from_raw(1),
        Entity::from_raw(3),
    ]);
    insert_entity(&mut entities, Entity::from_raw(2));
    assert_eq!(
        entities,
        vec![
            Entity::from_raw(1),
            Entity::from_raw(2),
            Entity::from_raw(3)
        ]
    );
}

fn infantry() -> UnitStats {
    UnitStats {
        unit_type: UnitType::Infantry,
        cost: 1_000,
        max_movement: 3,
        movement_type: MovementType::Infantry,
        max_fuel: 99,
        max_ammo1: 9,
        max_ammo2: 0,
        min_range: 1,
        max_range: 1,
        can_capture: true,
        can_supply: false,
        max_cargo: 0,
        loadable_unit_types: vec![],
    }
}

fn simulated_board() -> Board {
    let mut city = BoardRow::new(Entity::from_raw(1));
    city.position = Some(at(3, 0));
    city.property = Some(Property::new(Terrain::City, None, 100));
    let mut unit = BoardRow::new(Entity::from_raw(2));
    unit.position = Some(at(2, 0));
    unit.faction = Some(PlayerId(1));
    unit.stats = Some(infantry());
    unit.health = Some(Health {
        current: 100,
        max: 100,
    });
    Board {
        rows: vec![city, unit],
    }
}

#[test]
fn restoring_undoes_a_simulated_plan() {
    let map = GameMap::new(4, 1, Terrain::Plains, GridTopology::Square);
    let mut board = simulated_board();
    let before = format!("{:?}", board);
    let state = AiSimulationState::backup(&board);
    let squad = Squad {
        id: SquadId(1),
        owner_id: Some(PlayerId(1)),
        mission_type: MissionType::Capture,
        phase: MissionPhase::Forming,
        target: Some(at(3, 0)),
        target_island: None,
        transport_entity: None,
        transport_cargo: None,
        members: vec![Entity::from_raw(2)],
        cargo_entities: vec![],
        delivered_cargo: vec![],
        pickup_position: None,
        drop_position: None,
    };
    AiSimulationState::simulate_plan(
        &mut board,
        &map,
        &vec![DistanceField {
            target: at(3, 0),
            movement_type: MovementType::Infantry,
            max_movement: 3,
            turns: vec![(at(2, 0), 1), (at(3, 0), 0)],
        }],
        &vec![squad],
        &vec![(SquadId(1), at(3, 0))],
        PlayerId(1),
    );
    assert_eq!(board.rows[1].position, Some(at(3, 0)));
    assert_eq!(
        board.rows[0].property.unwrap().owner_id,
        Some(PlayerId(1))
    );
    state.restore(&mut board);
    assert_eq!(format!("{:?}", board), before);
}

#[test]
fn a_simulated_move_takes_no_more_steps_than_allowed() {
    let map = GameMap::new(9, 1, Terrain::Plains, GridTopology::Square);
    let mut board = simulated_board();
    board.rows[1].position = Some(at(8, 0));
    let turns = (0..9).map(|x: u32| (at(x as usize, 0), x)).collect();
    let squad = Squad {
        id: SquadId(1),
        owner_id: Some(PlayerId(1)),
        mission_type: MissionType::Attack,
        phase: MissionPhase::Forming,
        target: Some(at(0, 0)),
        target_island: None,
        transport_entity: None,
        transport_cargo: None,
        members: vec![Entity::from_raw(2)],
        cargo_entities: vec![],
        delivered_cargo: vec![],
        pickup_position: None,
        drop_position: None,
    };
    let mut field = DistanceField {
        target: at(0, 0),
        movement_type: MovementType::Infantry,
        max_movement: 3,
        turns,
    };
    let mut ahead = board.clone();
    AiSimulationState::simulate_plan(
        &mut ahead,
        &map,
        &vec![field.clone()],
        &vec![squad.clone()],
        &vec![(SquadId(1), at(0, 0))],
        PlayerId(1),
    );
    assert_eq!(ahead.rows[1].position, Some(at(7, 0)));

    // Three tiles to a turn: the move ends on the third.
    field.turns = (0..9)
        .map(|x: u32| (at(x as usize, 0), x.div_ceil(3)))
        .collect();
    field.turns[8].1 = 4;
    AiSimulationState::simulate_plan(
        &mut board,
        &map,
        &vec![field],
        &vec![squad],
        &vec![(SquadId(1), at(0, 0))],
        PlayerId(1),
    );
    assert_eq!(board.rows[1].position, Some(at(7, 0)));
}

#[test]
fn restoring_brings_back_what_has_no_health() {
    let map = GameMap::new(4, 1, Terrain::Plains, GridTopology::Square);
    let mut board = simulated_board();
    board.rows[1].health = None;
    let mut crate_of_ammo = BoardRow::new(Entity::from_raw(3));
    crate_of_ammo.ammo = Some(Ammo { ammo1: 4, ammo2: 1 });
    board.rows.push(crate_of_ammo);
    let before = format!("{:?}", board);
    let state = AiSimulationState::backup(&board);
    let squad = Squad {
        id: SquadId(1),
        owner_id: Some(PlayerId(1)),
        mission_type: MissionType::Transport,
        phase: MissionPhase::Forming,
        target: Some(at(0, 0)),
        target_island: None,
        transport_entity: None,
        transport_cargo: Some(Entity::from_raw(1)),
        members: vec![Entity::from_raw(2)],
        cargo_entities: vec![],
        delivered_cargo: vec![],
        pickup_position: None,
        drop_position: None,
    };
    AiSimulationState::simulate_plan(
        &mut board,
        &map,
        &vec![],
        &vec![squad],
        &vec![(SquadId(1), at(0, 0))],
        PlayerId(1),
    );
    assert_eq!(board.rows[0].position, Some(at(0, 0)));
    assert_eq!(board.rows[1].position, Some(at(0, 0)));
    board.rows[2].ammo = Some(Ammo { ammo1: 0, ammo2: 0 });
    state.restore(&mut board);
    assert_eq!(format!("{:?}", board), before);
}
