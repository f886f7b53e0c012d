use island_command::board::{Board, BoardRow, CargoCapacity, Property};
use island_command::entity::Entity;
use island_command::grid::{GridPosition, Terrain};
use island_command::islands::{Island, IslandId, IslandMap};
use island_command::master_data::{LandscapeRow, MasterDataRegistry};
use island_command::missions::{TransportMissionManager, TransportPhase};
use island_command::planner::{assign_transport_missions, is_invasion_allowed};
use island_command::units::{MovementType, PlayerId, UnitStats, UnitType};

fn at(x: usize, y: usize) -> GridPosition {
    GridPosition { x, y }
}

fn registry() -> MasterDataRegistry {
    let site = |terrain, production_facility| LandscapeRow {
        terrain,
        income: 1_000,
        defense_bonus: 0,
        production_facility,
        produces: vec![],
    };
    MasterDataRegistry {
        landscapes: vec![
            site(Terrain::City, false),
            site(Terrain::Factory, true),
            site(Terrain::Airport, true),
            site(Terrain::Port, true),
            site(Terrain::Capital, true),
        ],
        movement: vec![],
        units: vec![],
        ranks: vec![],
    }
}

fn stats(unit_type: UnitType) -> UnitStats {
    UnitStats {
        unit_type,
        cost: 1_000,
        max_movement: 3,
        movement_type: MovementType::Infantry,
        max_fuel: 99,
        max_ammo1: 0,
        max_ammo2: 0,
        min_range: 1,
        max_range: 1,
        can_capture: unit_type == UnitType::Infantry,
        can_supply: false,
        max_cargo: 0,
        loadable_unit_types: vec![],
    }
}

struct World {
    board: Board,
    islands: IslandMap,
    base_islands: Vec<IslandId>,
    target_islands: Vec<IslandId>,
    manager: TransportMissionManager,
}

impl World {
    fn new(islands: Vec<Vec<GridPosition>>) -> World {
        World {
            board: Board { rows: vec![] },
            islands: IslandMap {
                islands: islands
                    .into_iter()
                    .enumerate()
                    .map(|(i, tiles)| Island {
                        id: IslandId(i),
                        tiles,
                    })
                    .collect(),
            },
            base_islands: vec![],
            target_islands: vec![],
            manager: TransportMissionManager { missions: vec![] },
        }
    }

    fn spawn(&mut self) -> &mut BoardRow {
        let e = Entity::from_raw(self.board.rows.len() as u32 + 1);
        self.board.rows.push(BoardRow::new(e));
        self.board.rows.last_mut().unwrap()
    }

    fn building(&mut self, p: GridPosition, terrain: Terrain, owner: Option<u32>) {
        let island = self.islands.get_island_at(&p).unwrap().id;
        let list = if owner == Some(1) {
            &mut self.base_islands
        } else {
            &mut self.target_islands
        };
        if !list.contains(&island) {
            list.push(island);
        }
        let row = self.spawn();
        row.position = Some(p);
        row.property = Some(Property::new(terrain, owner.map(PlayerId), 200));
    }

    fn unit(&mut self, player: u32, p: GridPosition, unit_type: UnitType) -> Entity {
        let row = self.spawn();
        row.faction = Some(PlayerId(player));
        row.position = Some(p);
        row.stats = Some(stats(unit_type));
        if unit_type == UnitType::TransportHelicopter {
            row.cargo = Some(CargoCapacity {
                max: 1,
                loaded: vec![],
            });
        }
        row.entity
    }

    fn assign(&mut self) {
        assign_transport_missions(
            &self.board,
            &self.islands,
            &registry(),
            &self.base_islands,
            &self.target_islands,
            &mut self.manager,
            PlayerId(1),
        );
    }
}

#[test]
fn test_assign_transport_mission() {
    let mut world = World::new(vec![vec![at(0, 0)], vec![at(10, 10)]]);
    world.building(at(10, 10), Terrain::City, Some(2));
    world.building(at(0, 0), Terrain::Factory, Some(1));
    let transport = world.unit(1, at(0, 0), UnitType::TransportHelicopter);
    let cargo = world.unit(1, at(0, 0), UnitType::Infantry);

    world.assign();

    assert_eq!(world.manager.missions.len(), 1);
    let m = &world.manager.missions[0];
    assert_eq!(m.transport_entity, transport);
    assert_eq!(m.cargo_entity, cargo);
    assert_eq!(m.phase, TransportPhase::Pickup);
    assert_eq!(m.target_island, Some(IslandId(1)));
}

#[test]
fn test_assign_multiple_transport_missions() {
    let mut world = World::new(vec![
        vec![at(0, 0), at(1, 0)],
        vec![at(5, 5), at(6, 5), at(7, 5)],
    ]);
    for x in 5..=7 {
        world.building(at(x, 5), Terrain::City, Some(2));
    }
    world.building(at(0, 0), Terrain::Factory, Some(1));
    for _ in 0..3 {
        world.unit(1, at(0, 0), UnitType::TransportHelicopter);
        world.unit(1, at(1, 0), UnitType::Infantry);
    }

    world.assign();

    assert_eq!(world.manager.missions.len(), 3);
    for m in &world.manager.missions {
        assert_eq!(m.phase, TransportPhase::Pickup);
        assert_eq!(m.target_island, Some(IslandId(1)));
    }
    for (i, m) in world.manager.missions.iter().enumerate() {
        for other in &world.manager.missions[i + 1..] {
            assert_ne!(m.transport_entity, other.transport_entity);
            assert_ne!(m.cargo_entity, other.cargo_entity);
        }
    }
}

#[test]
fn test_assign_transport_mission_prioritizes_neutral_island_over_dangerous_island() {
    let mut world = World::new(vec![vec![at(0, 0)], vec![at(2, 2)], vec![at(5, 5)]]);
    world.building(at(0, 0), Terrain::Factory, Some(1));
    world.building(at(2, 2), Terrain::Factory, Some(2));
    world.building(at(5, 5), Terrain::City, None);
    let transport = world.unit(1, at(0, 0), UnitType::TransportHelicopter);
    let cargo = world.unit(1, at(0, 0), UnitType::Infantry);

    world.assign();

    assert_eq!(world.manager.missions.len(), 1);
    let m = &world.manager.missions[0];
    assert_eq!(m.transport_entity, transport);
    assert_eq!(m.cargo_entity, cargo);
    assert_eq!(m.target_island, Some(IslandId(2)));
}

#[test]
fn test_assign_transport_mission_respects_invasion_constraints() {
    let mut world = World::new(vec![vec![at(0, 0)], vec![at(2, 2)]]);
    world.building(at(0, 0), Terrain::Factory, Some(1));
    world.building(at(2, 2), Terrain::Factory, Some(2));
    world.unit(1, at(0, 0), UnitType::TransportHelicopter);
    world.unit(1, at(0, 0), UnitType::Infantry);

    world.assign();
    assert_eq!(world.manager.missions.len(), 0);

    world.unit(1, at(2, 2), UnitType::Tank);
    world.assign();
    assert_eq!(world.manager.missions.len(), 1);

    world.board.rows.pop();
    world.manager.missions.clear();
    world.unit(2, at(2, 2), UnitType::Tank);
    for _ in 0..4 {
        world.unit(1, at(0, 0), UnitType::Tank);
    }
    world.assign();
    assert_eq!(world.manager.missions.len(), 1);
}

#[test]
fn three_against_one_is_no_overwhelming_force() {
    let mut world = World::new(vec![vec![at(0, 0)], vec![at(2, 2)]]);
    world.unit(2, at(2, 2), UnitType::Tank);
    for _ in 0..3 {
        world.unit(1, at(0, 0), UnitType::Tank);
    }
    let island = world.islands.islands[1].clone();
    assert!(!is_invasion_allowed(&world.board, PlayerId(1), &island));
    world.unit(1, at(0, 0), UnitType::Tank);
    assert!(is_invasion_allowed(&world.board, PlayerId(1), &island));
}

#[test]
fn infantry_is_no_escort() {
    let mut world = World::new(vec![vec![at(0, 0)], vec![at(2, 2)]]);
    world.unit(1, at(2, 2), UnitType::Infantry);
    let island = world.islands.islands[1].clone();
    assert!(!is_invasion_allowed(&world.board, PlayerId(1), &island));
    world.unit(1, at(2, 2), UnitType::AntiAir);
    assert!(is_invasion_allowed(&world.board, PlayerId(1), &island));
}

#[test]
fn busy_units_are_left_alone() {
    let mut world = World::new(vec![vec![at(0, 0)], vec![at(10, 10), at(11, 10)]]);
    world.building(at(10, 10), Terrain::City, Some(2));
    world.building(at(11, 10), Terrain::City, Some(2));
    world.building(at(0, 0), Terrain::Factory, Some(1));
    let first = world.unit(1, at(0, 0), UnitType::TransportHelicopter);
    let waiting = world.unit(1, at(0, 0), UnitType::Infantry);
    world.assign();
    assert_eq!(world.manager.missions.len(), 1);
    assert_eq!(world.manager.missions[0].transport_entity, first);

    world.assign();
    assert_eq!(world.manager.missions.len(), 1);

    let second = world.unit(1, at(0, 0), UnitType::TransportHelicopter);
    world.assign();
    assert_eq!(world.manager.missions.len(), 1);

    let free = world.unit(1, at(0, 0), UnitType::Infantry);
    world.assign();
    assert_eq!(world.manager.missions.len(), 2);
    assert_eq!(world.manager.missions[0].cargo_entity, waiting);
    assert_eq!(world.manager.missions[1].transport_entity, second);
    assert_eq!(world.manager.missions[1].cargo_entity, free);
}

#[test]
fn no_island_gets_more_than_it_needs() {
    let mut world = World::new(vec![vec![at(0, 0)], vec![at(10, 10), at(11, 10)]]);
    world.building(at(10, 10), Terrain::City, Some(2));
    world.building(at(11, 10), Terrain::City, None);
    world.building(at(0, 0), Terrain::Factory, Some(1));
    for _ in 0..4 {
        world.unit(1, at(0, 0), UnitType::TransportHelicopter);
        world.unit(1, at(0, 0), UnitType::Infantry);
    }
    world.assign();
    assert_eq!(world.manager.missions.len(), 2);
    world.assign();
    assert_eq!(world.manager.missions.len(), 2);
}
