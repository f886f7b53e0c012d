use island_command::board::{Board, BoardRow, CargoCapacity, Property};
use island_command::entity::Entity;
use island_command::grid::{GameMap, GridPosition, GridTopology, Terrain};
use island_command::islands::{Island, IslandId, IslandMap};
use island_command::master_data::{MasterDataRegistry, MovementRow};
use island_command::missions::{
    execute_mission_step, get_target_position_for_island, update_mission_phase, AiCommand, DropRow,
    MissionOptions, TransportMission, TransportPhase,
};
use island_command::travel::{Route, TerrainLink, Traveller, TravelTable, TurnDistance};
use island_command::units::{Fuel, Health, MovementType, PlayerId, UnitStats, UnitType};

fn at(x: usize, y: usize) -> GridPosition {
    GridPosition { x, y }
}

fn registry() -> MasterDataRegistry {
    let row = |movement_type, terrain, cost| MovementRow {
        movement_type,
        terrain,
        cost,
    };
    MasterDataRegistry {
        landscapes: vec![],
        movement: vec![
            row(MovementType::Infantry, Terrain::Plains, 1),
            row(MovementType::Infantry, Terrain::Sea, 99),
            row(MovementType::Air, Terrain::Plains, 1),
            row(MovementType::Air, Terrain::Sea, 1),
            row(MovementType::Ship, Terrain::Plains, 99),
            row(MovementType::Ship, Terrain::Sea, 1),
        ],
        units: vec![],
        ranks: vec![],
    }
}

fn stats(unit_type: UnitType, max_movement: u32, movement_type: MovementType) -> UnitStats {
    let carries = unit_type != UnitType::Infantry;
    UnitStats {
        unit_type,
        cost: 1_000,
        max_movement,
        movement_type,
        max_fuel: 99,
        max_ammo1: 0,
        max_ammo2: 0,
        min_range: 1,
        max_range: 1,
        can_capture: !carries,
        can_supply: false,
        max_cargo: if carries { 1 } else { 0 },
        loadable_unit_types: if carries {
            vec![UnitType::Infantry]
        } else {
            vec![]
        },
    }
}

fn unit(index: u32, p: GridPosition, stats: UnitStats, hold: Option<u32>) -> BoardRow {
    let mut row = BoardRow::new(Entity::from_raw(index));
    row.faction = Some(PlayerId(1));
    row.position = Some(p);
    row.stats = Some(stats);
    row.fuel = Some(Fuel {
        current: 99,
        max: 99,
    });
    row.health = Some(Health {
        current: 100,
        max: 100,
    });
    row.cargo = hold.map(|max| CargoCapacity {
        max,
        loaded: vec![],
    });
    row
}

struct World {
    board: Board,
    map: GameMap,
    islands: IslandMap,
    transport: Entity,
    cargo: Entity,
}

fn setup_test_world() -> World {
    World {
        board: Board {
            rows: vec![
                unit(
                    1,
                    at(0, 0),
                    stats(UnitType::TransportHelicopter, 5, MovementType::Air),
                    Some(1),
                ),
                unit(
                    2,
                    at(1, 0),
                    stats(UnitType::Infantry, 3, MovementType::Infantry),
                    None,
                ),
            ],
        },
        map: GameMap::new(10, 10, Terrain::Plains, GridTopology::Square),
        islands: IslandMap { islands: vec![] },
        transport: Entity::from_raw(1),
        cargo: Entity::from_raw(2),
    }
}

fn enters(map: &GameMap, movement_type: MovementType, p: GridPosition) -> bool {
    match (movement_type, map.get_terrain(p.x, p.y)) {
        (_, None) => false,
        (MovementType::Air, _) => true,
        (MovementType::Ship, Some(terrain)) => terrain == Terrain::Sea,
        (_, Some(terrain)) => terrain != Terrain::Sea,
    }
}

fn steps_from(map: &GameMap, movement_type: MovementType, start: GridPosition) -> Vec<(GridPosition, u32)> {
    let mut found = vec![(start, 0)];
    let mut next = 0;
    while next < found.len() {
        let (p, steps) = found[next];
        next += 1;
        for q in map.get_adjacent(p.x, p.y) {
            if enters(map, movement_type, q) && found.iter().all(|(known, _)| *known != q) {
                found.push((q, steps + 1));
            }
        }
    }
    found
}

impl World {
    fn row(&mut self, e: Entity) -> &mut BoardRow {
        let i = self.board.find(e).unwrap();
        &mut self.board.rows[i]
    }

    fn load(&mut self) {
        let (transport, cargo) = (self.transport, self.cargo);
        self.row(transport).cargo.as_mut().unwrap().loaded.push(cargo);
        self.row(cargo).transporting = Some(transport);
    }

    fn unload(&mut self) {
        let (transport, cargo) = (self.transport, self.cargo);
        self.row(transport).cargo.as_mut().unwrap().loaded.clear();
        self.row(cargo).transporting = None;
    }

    fn mission(&self, phase: TransportPhase) -> TransportMission {
        TransportMission {
            transport_entity: self.transport,
            cargo_entity: self.cargo,
            phase,
            target_island: Some(IslandId(1)),
        }
    }

    fn taken(&self, p: GridPosition, but: Entity) -> bool {
        self.board.rows.iter().any(|row| {
            row.entity != but
                && row.stats.is_some()
                && row.transporting.is_none()
                && row.position == Some(p)
        })
    }

    fn reach(&self, e: Entity) -> Vec<GridPosition> {
        let row = &self.board.rows[self.board.find(e).unwrap()];
        let stats = row.stats.as_ref().unwrap();
        let start = row.position.unwrap();
        if self.map.get_terrain(start.x, start.y).is_none() {
            return vec![];
        }
        steps_from(&self.map, stats.movement_type, start)
            .into_iter()
            .filter(|(p, steps)| *steps <= stats.max_movement && !self.taken(*p, e))
            .map(|(p, _)| p)
            .collect()
    }

    fn landings(&self, from: GridPosition) -> Vec<GridPosition> {
        let transport = &self.board.rows[self.board.find(self.transport).unwrap()];
        if !transport.cargo.as_ref().unwrap().loaded.contains(&self.cargo) {
            return vec![];
        }
        self.map
            .get_adjacent(from.x, from.y)
            .into_iter()
            .filter(|p| {
                enters(&self.map, MovementType::Infantry, *p) && !self.taken(*p, self.transport)
            })
            .collect()
    }

    fn options(&self) -> MissionOptions {
        let reachable = self.reach(self.transport);
        let mut travel = TravelTable {
            routes: vec![],
            links: vec![],
        };
        for e in [self.transport, self.cargo] {
            let row = &self.board.rows[self.board.find(e).unwrap()];
            let stats = row.stats.as_ref().unwrap();
            for y in 0..self.map.height {
                for x in 0..self.map.width {
                    for (target, steps) in steps_from(&self.map, stats.movement_type, at(x, y)) {
                        travel.links.push(TerrainLink {
                            movement_type: stats.movement_type,
                            start: at(x, y),
                            target,
                        });
                        travel.routes.push(Route {
                            traveller: Traveller {
                                player_id: PlayerId(1),
                                movement_type: stats.movement_type,
                                max_movement: stats.max_movement,
                            },
                            start: at(x, y),
                            target,
                            distance: TurnDistance {
                                turns: steps.div_ceil(stats.max_movement),
                                used_mp: steps % stats.max_movement,
                            },
                        });
                    }
                }
            }
        }
        let here = self.board.rows[self.board.find(self.transport).unwrap()]
            .position
            .unwrap();
        MissionOptions {
            drops: reachable
                .iter()
                .map(|p| DropRow {
                    at: *p,
                    tiles: self.landings(*p),
                })
                .collect(),
            reachable,
            cargo_reachable: self.reach(self.cargo),
            drops_here: self.landings(here),
            travel,
        }
    }

    fn step(&self, mission: &TransportMission) -> Vec<(Entity, AiCommand)> {
        execute_mission_step(
            &self.board,
            &self.map,
            &registry(),
            &self.islands,
            &self.options(),
            mission,
        )
    }

    fn update(&self, mission: &mut TransportMission) -> bool {
        update_mission_phase(&self.board, &self.map, &registry(), &self.islands, mission)
    }
}

fn island(id: usize, tiles: Vec<GridPosition>) -> Island {
    Island {
        id: IslandId(id),
        tiles,
    }
}

#[test]
fn test_update_mission_phase_transitions() {
    let mut world = setup_test_world();
    world.islands = IslandMap {
        islands: vec![
            island(0, vec![at(0, 0), at(1, 0)]),
            island(1, vec![at(5, 5)]),
        ],
    };
    let transport = world.transport;
    let mut mission = world.mission(TransportPhase::Pickup);

    assert_eq!(mission.phase, TransportPhase::Pickup);
    assert!(!world.update(&mut mission));

    world.load();
    assert!(!world.update(&mut mission));
    assert_eq!(mission.phase, TransportPhase::Transit);

    world.row(transport).position = Some(at(5, 4));
    assert!(!world.update(&mut mission));
    assert_eq!(mission.phase, TransportPhase::Drop);

    world.unload();
    assert!(!world.update(&mut mission));
    assert_eq!(mission.phase, TransportPhase::Return);

    let mut city = BoardRow::new(Entity::from_raw(3));
    city.position = Some(at(0, 0));
    city.property = Some(Property::new(Terrain::City, Some(PlayerId(1)), 200));
    world.board.rows.push(city);
    world.row(transport).position = Some(at(0, 0));
    assert!(world.update(&mut mission));
}

#[test]
fn test_execute_mission_step_pickup() {
    let mut world = setup_test_world();
    let cargo = world.cargo;
    world.row(cargo).position = Some(at(2, 0));

    let commands = world.step(&world.mission(TransportPhase::Pickup));
    assert!(!commands.is_empty());
    if let Some((_entity, AiCommand::Wait { target_pos })) = commands.into_iter().next() {
        let dist = (target_pos.x as i32 - 2).abs() + (target_pos.y as i32).abs();
        assert_eq!(dist, 1);
    } else {
        panic!("Expected Wait command");
    }
}

#[test]
fn test_execute_mission_step_transit() {
    let mut world = setup_test_world();
    world.islands = IslandMap {
        islands: vec![island(1, vec![at(5, 5)])],
    };

    let commands = world.step(&world.mission(TransportPhase::Transit));
    assert!(!commands.is_empty());
    if let Some((_entity, AiCommand::Wait { target_pos })) = commands.into_iter().next() {
        let dist_to_target = (target_pos.x as i32 - 5).abs() + (target_pos.y as i32 - 5).abs();
        assert!(dist_to_target < 10);
    } else {
        panic!("Expected Wait command");
    }
}

#[test]
fn test_execute_mission_step_drop_success() {
    let mut world = setup_test_world();
    world.load();
    let (transport, cargo) = (world.transport, world.cargo);
    world.row(transport).position = Some(at(5, 4));

    let commands = world.step(&world.mission(TransportPhase::Drop));
    assert!(!commands.is_empty());
    if let Some((
        _entity,
        AiCommand::Drop {
            transport_target_pos,
            cargo_drop_pos,
            cargo_entity,
        },
    )) = commands.into_iter().next()
    {
        assert_eq!(cargo_entity, cargo);
        assert_eq!(transport_target_pos, at(5, 4));
        let dist = (cargo_drop_pos.x as i32 - 5).abs() + (cargo_drop_pos.y as i32 - 4).abs();
        assert_eq!(dist, 1);
    } else {
        panic!("Expected Drop command");
    }
}

#[test]
fn test_execute_mission_step_drop_fallback() {
    let mut world = setup_test_world();
    world.load();
    world.map = GameMap::new(10, 10, Terrain::Sea, GridTopology::Square);

    let commands = world.step(&world.mission(TransportPhase::Drop));
    assert!(!commands.is_empty());
    if let Some((_entity, AiCommand::Wait { target_pos })) = commands.into_iter().next() {
        assert_eq!(target_pos.x, 0);
        assert_eq!(target_pos.y, 0);
    } else {
        panic!("Expected Wait command");
    }
}

#[test]
fn test_execute_mission_step_return() {
    let mut world = setup_test_world();
    let transport = world.transport;
    let mut city = BoardRow::new(Entity::from_raw(3));
    city.position = Some(at(0, 0));
    city.property = Some(Property::new(Terrain::City, Some(PlayerId(1)), 200));
    world.board.rows.push(city);
    world.row(transport).position = Some(at(5, 5));

    let commands = world.step(&world.mission(TransportPhase::Return));
    assert!(!commands.is_empty());
    if let Some((_entity, AiCommand::Wait { target_pos })) = commands.into_iter().next() {
        let dist_to_base = target_pos.x as i32 + target_pos.y as i32;
        assert!(dist_to_base < 10);
    } else {
        panic!("Expected Wait command");
    }
}

#[test]
fn test_execute_mission_step_transit_lander() {
    let mut map = GameMap::new(5, 1, Terrain::Sea, GridTopology::Square);
    map.set_terrain(3, 0, Terrain::Plains).unwrap();
    map.set_terrain(4, 0, Terrain::Plains).unwrap();
    let world = World {
        board: Board {
            rows: vec![
                unit(
                    1,
                    at(0, 0),
                    stats(UnitType::Lander, 3, MovementType::Ship),
                    Some(2),
                ),
                unit(
                    2,
                    at(9999, 9999),
                    stats(UnitType::Infantry, 3, MovementType::Infantry),
                    None,
                ),
            ],
        },
        map,
        islands: IslandMap {
            islands: vec![island(1, vec![at(3, 0), at(4, 0)])],
        },
        transport: Entity::from_raw(1),
        cargo: Entity::from_raw(2),
    };

    let commands = world.step(&world.mission(TransportPhase::Transit));
    assert!(!commands.is_empty());
    if let Some((_entity, AiCommand::Wait { target_pos })) = commands.into_iter().next() {
        assert_eq!(target_pos.x, 2);
        assert_eq!(target_pos.y, 0);
    } else {
        panic!("Expected Wait command");
    }
}

#[test]
fn test_execute_mission_step_transit_to_direct_drop() {
    let mut world = setup_test_world();
    world.load();
    world.islands = IslandMap {
        islands: vec![island(1, vec![at(5, 5)])],
    };
    let (transport, cargo) = (world.transport, world.cargo);
    world.row(transport).position = Some(at(0, 0));
    world.row(transport).stats.as_mut().unwrap().max_movement = 10;
    let mut mission = world.mission(TransportPhase::Transit);

    let commands = world.step(&mission);
    assert!(!commands.is_empty());
    if let Some((
        _entity,
        AiCommand::Drop {
            transport_target_pos,
            cargo_drop_pos,
            cargo_entity,
        },
    )) = commands.clone().into_iter().next()
    {
        assert_eq!(cargo_entity, cargo);
        assert!(transport_target_pos == at(5, 4) || transport_target_pos == at(4, 5));
        assert_eq!(cargo_drop_pos, at(5, 5));
    } else {
        panic!("Expected Drop command, got {:?}", commands);
    }

    world.unload();
    assert!(!world.update(&mut mission));
    assert_eq!(mission.phase, TransportPhase::Return);
}

#[test]
fn a_mission_without_its_transport_is_over() {
    let mut world = setup_test_world();
    let transport = world.transport;
    world.row(transport).position = None;
    let mut mission = world.mission(TransportPhase::Transit);
    assert!(world.update(&mut mission));
    assert_eq!(mission.phase, TransportPhase::Transit);
}

#[test]
fn a_returning_mission_does_not_need_its_cargo() {
    let mut world = setup_test_world();
    let cargo = world.cargo;
    world.row(cargo).position = None;
    let mut returning = world.mission(TransportPhase::Return);
    assert!(!world.update(&mut returning));
    let mut carrying = world.mission(TransportPhase::Drop);
    assert!(world.update(&mut carrying));
}

#[test]
fn ships_dock_beside_the_island() {
    let mut map = GameMap::new(5, 1, Terrain::Sea, GridTopology::Square);
    map.set_terrain(3, 0, Terrain::Plains).unwrap();
    let target = get_target_position_for_island(
        &map,
        &registry(),
        &island(1, vec![at(3, 0)]),
        at(0, 0),
        MovementType::Ship,
    );
    assert_eq!(target, Some(at(2, 0)));
    let by_air = get_target_position_for_island(
        &map,
        &registry(),
        &island(1, vec![at(3, 0)]),
        at(0, 0),
        MovementType::Air,
    );
    assert_eq!(by_air, Some(at(3, 0)));
}

#[test]
fn flyers_head_for_the_nearest_tile() {
    let map = GameMap::new(9, 9, Terrain::Plains, GridTopology::Square);
    let tiles = vec![at(8, 8), at(4, 2), at(3, 3), at(2, 4)];
    let target = |from: GridPosition, tiles: Vec<GridPosition>| {
        get_target_position_for_island(
            &map,
            &registry(),
            &island(1, tiles),
            from,
            MovementType::Air,
        )
    };
    assert_eq!(target(at(7, 8), tiles.clone()), Some(at(8, 8)));
    assert_eq!(target(at(0, 0), tiles), Some(at(2, 4)));
    assert_eq!(target(at(0, 0), vec![]), None);
}

#[test]
fn ships_head_for_a_dock_however_far() {
    let mut map = GameMap::new(12_000, 1, Terrain::Sea, GridTopology::Square);
    map.set_terrain(11_000, 0, Terrain::Plains).unwrap();
    let target = |from: GridPosition, tiles: Vec<GridPosition>| {
        get_target_position_for_island(
            &map,
            &registry(),
            &island(1, tiles),
            from,
            MovementType::Ship,
        )
    };
    assert_eq!(target(at(0, 0), vec![at(11_000, 0)]), Some(at(10_999, 0)));
    assert_eq!(target(at(0, 0), vec![]), None);
}

#[test]
fn ships_meet_their_cargo_where_it_stands_if_all_docks_are_too_far() {
    let cargo_at = at(11_000, 0);
    let mut map = GameMap::new(12_000, 1, Terrain::Sea, GridTopology::Square);
    map.set_terrain(cargo_at.x, cargo_at.y, Terrain::Plains)
        .unwrap();
    let islands = IslandMap {
        islands: vec![island(1, vec![cargo_at])],
    };
    let goal_of = |from: usize| {
        let board = Board {
            rows: vec![
                unit(
                    1,
                    at(from, 0),
                    stats(UnitType::Lander, 6, MovementType::Ship),
                    Some(1),
                ),
                unit(
                    2,
                    cargo_at,
                    stats(UnitType::Infantry, 3, MovementType::Infantry),
                    None,
                ),
            ],
        };
        let route = |start: usize, target: usize, turns: u32| Route {
            traveller: Traveller {
                player_id: PlayerId(1),
                movement_type: MovementType::Ship,
                max_movement: 6,
            },
            start: at(start, 0),
            target: at(target, 0),
            distance: TurnDistance { turns, used_mp: 0 },
        };
        let options = MissionOptions {
            reachable: vec![at(from, 0), at(from + 1, 0), at(from + 2, 0)],
            cargo_reachable: vec![cargo_at],
            drops_here: vec![],
            drops: vec![],
            travel: TravelTable {
                routes: vec![
                    route(from, 11_000, 9),
                    route(from + 1, 11_000, 8),
                    route(from, 10_999, 9),
                    route(from + 2, 10_999, 8),
                ],
                links: vec![],
            },
        };
        let mission = TransportMission {
            transport_entity: Entity::from_raw(1),
            cargo_entity: Entity::from_raw(2),
            phase: TransportPhase::Pickup,
            target_island: Some(IslandId(1)),
        };
        execute_mission_step(&board, &map, &registry(), &islands, &options, &mission)[0].1
    };
    assert_eq!(goal_of(1_000), AiCommand::Wait { target_pos: at(1_001, 0) });
    assert_eq!(goal_of(1_001), AiCommand::Wait { target_pos: at(1_003, 0) });
}
