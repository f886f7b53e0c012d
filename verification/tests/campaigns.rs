use island_command::board::{Board, BoardRow, CargoCapacity, Property};
use island_command::campaign_analysis::{
    analyze_island_campaign, analyze_island_campaign_excluding, player_funds, CampaignAgenda,
};
use island_command::campaign_facts::{collect_island_campaign_facts, CampaignScene};
use island_command::campaign_requirements::{
    candidate_target_position, contested_is_competitive, minimum_producible_campaign_combat_cost,
    requirement_for_assessment, scaled_combat_requirement, sole_capturable_landmass_id,
};
use island_command::entity::Entity;
use island_command::eta::{
    capture_turns, ceil_div, hp_weighted_combat_value, min_option, movement_targets_for_island,
};
use island_command::grid::{GameMap, GridPosition, GridTopology, Terrain};
use island_command::island_campaign::{
    IslandCampaignAssessment, IslandCampaignDecision, IslandCampaignFacts, IslandCampaignState,
    IslandJudgement, PlayerFunds,
};
use island_command::islands::{Island, IslandId, IslandMap};
use island_command::master_data::{LandscapeRow, MasterDataRegistry, MovementRow, RankRow};
use island_command::missions::TransportPhase;
use island_command::operations::collect_existing_operations;
use island_command::snapshots::{
    collect_unit_snapshots, mixed_owner_squad_entities, PropertySnapshot,
};
use island_command::squad::{MissionPhase, MissionType, Squad, SquadId, SquadManager};
use island_command::travel::{Route, TerrainLink, Traveller, TravelTable, TurnDistance};
use island_command::units::{Ammo, Fuel, Health, MovementType, PlayerId, UnitStats, UnitType};

const ALL_TERRAIN: [Terrain; 14] = [
    Terrain::Plains,
    Terrain::Forest,
    Terrain::Mountain,
    Terrain::Road,
    Terrain::Bridge,
    Terrain::River,
    Terrain::Sea,
    Terrain::Shoal,
    Terrain::Reef,
    Terrain::City,
    Terrain::Factory,
    Terrain::Airport,
    Terrain::Port,
    Terrain::Capital,
];

fn at(x: usize, y: usize) -> GridPosition {
    GridPosition { x, y }
}

fn stats(unit_type: UnitType) -> UnitStats {
    let (cost, max_movement, movement_type, can_capture, max_cargo) = match unit_type {
        UnitType::Infantry => (1_000, 3, MovementType::Infantry, true, 0),
        UnitType::Tank => (7_000, 6, MovementType::Tank, false, 0),
        UnitType::TransportHelicopter => (4_000, 6, MovementType::Air, false, 2),
        UnitType::Lander => (12_000, 6, MovementType::Ship, false, 2),
        _ => (1_000, 3, MovementType::Tank, false, 0),
    };
    UnitStats {
        unit_type,
        cost,
        max_movement,
        movement_type,
        max_fuel: 99,
        max_ammo1: 9,
        max_ammo2: 9,
        min_range: 1,
        max_range: 1,
        can_capture,
        can_supply: false,
        max_cargo,
        loadable_unit_types: if max_cargo > 0 {
            vec![UnitType::Infantry, UnitType::Mech, UnitType::Tank]
        } else {
            vec![]
        },
    }
}

fn enters(movement_type: MovementType, terrain: Terrain) -> bool {
    let water = matches!(terrain, Terrain::Sea | Terrain::Reef);
    match movement_type {
        MovementType::Air => true,
        MovementType::Ship => water || matches!(terrain, Terrain::Port | Terrain::Shoal),
        _ => !water,
    }
}

fn registry() -> MasterDataRegistry {
    let mut movement = vec![];
    for movement_type in [
        MovementType::Infantry,
        MovementType::Tank,
        MovementType::Air,
        MovementType::Ship,
    ] {
        for terrain in ALL_TERRAIN {
            let cost = if enters(movement_type, terrain) { 1 } else { 99 };
            movement.push(MovementRow {
                movement_type,
                terrain,
                cost,
            });
        }
    }
    let site = |terrain: Terrain, income: u32, produces: Vec<UnitType>| LandscapeRow {
        terrain,
        income,
        defense_bonus: 0,
        production_facility: !produces.is_empty(),
        produces,
    };
    MasterDataRegistry {
        landscapes: vec![
            site(
                Terrain::Factory,
                1_000,
                vec![UnitType::Infantry, UnitType::Tank],
            ),
            site(
                Terrain::Airport,
                1_000,
                vec![UnitType::TransportHelicopter],
            ),
            site(Terrain::Port, 1_000, vec![UnitType::Lander]),
            site(Terrain::Capital, 3_000, vec![UnitType::Infantry]),
            site(Terrain::City, 1_000, vec![]),
        ],
        movement,
        units: vec![
            stats(UnitType::Infantry),
            stats(UnitType::Tank),
            stats(UnitType::TransportHelicopter),
            stats(UnitType::Lander),
        ],
        ranks: vec![
            RankRow {
                unit_type: UnitType::Infantry,
                rank: 0,
            },
            RankRow {
                unit_type: UnitType::Tank,
                rank: 1,
            },
            RankRow {
                unit_type: UnitType::TransportHelicopter,
                rank: 2,
            },
            RankRow {
                unit_type: UnitType::Lander,
                rank: 3,
            },
        ],
    }
}

/// Steps from every tile to every other over tiles that can be entered.
fn steps_from(map: &GameMap, movement_type: MovementType, start: GridPosition) -> Vec<Option<u32>> {
    let mut steps = vec![None; map.width * map.height];
    steps[start.y * map.width + start.x] = Some(0);
    let mut queue = vec![start];
    let mut next = 0;
    while next < queue.len() {
        let p = queue[next];
        next += 1;
        let so_far = steps[p.y * map.width + p.x].unwrap();
        for q in map.get_adjacent(p.x, p.y) {
            let terrain = map.get_terrain(q.x, q.y).unwrap();
            if enters(movement_type, terrain) && steps[q.y * map.width + q.x].is_none() {
                steps[q.y * map.width + q.x] = Some(so_far + 1);
                queue.push(q);
            }
        }
    }
    steps
}

fn travel_over(map: &GameMap) -> TravelTable {
    let mut table = TravelTable {
        routes: vec![],
        links: vec![],
    };
    for (movement_type, max_movement) in [
        (MovementType::Infantry, 3),
        (MovementType::Tank, 6),
        (MovementType::Air, 6),
        (MovementType::Ship, 6),
    ] {
        for sy in 0..map.height {
            for sx in 0..map.width {
                let steps = steps_from(map, movement_type, at(sx, sy));
                for ty in 0..map.height {
                    for tx in 0..map.width {
                        let Some(count) = steps[ty * map.width + tx] else {
                            continue;
                        };
                        table.links.push(TerrainLink {
                            movement_type,
                            start: at(sx, sy),
                            target: at(tx, ty),
                        });
                        for player in [1, 2] {
                            table.routes.push(Route {
                                traveller: Traveller {
                                    player_id: PlayerId(player),
                                    movement_type,
                                    max_movement,
                                },
                                start: at(sx, sy),
                                target: at(tx, ty),
                                distance: TurnDistance {
                                    turns: count.div_ceil(max_movement),
                                    used_mp: count % max_movement,
                                },
                            });
                        }
                    }
                }
            }
        }
    }
    table
}

struct World {
    scene: CampaignScene,
}

impl World {
    fn new(map: GameMap) -> World {
        World {
            scene: CampaignScene {
                travel: travel_over(&map),
                islands: IslandMap::analyze(&map),
                map,
                registry: registry(),
                manager: SquadManager {
                    squads: vec![],
                    solo_fallbacks: vec![],
                },
                board: Board { rows: vec![] },
            },
        }
    }

    fn island_at(&self, p: GridPosition) -> IslandId {
        self.scene.islands.get_island_at(&p).unwrap().id
    }

    fn row(&mut self, e: Entity) -> &mut BoardRow {
        let i = self.scene.board.find(e).unwrap();
        &mut self.scene.board.rows[i]
    }

    fn spawn(&mut self) -> Entity {
        let e = Entity::from_raw(self.scene.board.rows.len() as u32 + 1);
        self.scene.board.rows.push(BoardRow::new(e));
        e
    }

    fn building(&mut self, p: GridPosition, terrain: Terrain, owner: Option<u32>) {
        let e = self.spawn();
        let row = self.row(e);
        row.position = Some(p);
        row.property = Some(Property::new(terrain, owner.map(PlayerId), 100));
    }

    fn unit(&mut self, player: u32, p: GridPosition, stats: UnitStats) -> Entity {
        let e = self.spawn();
        let row = self.row(e);
        row.faction = Some(PlayerId(player));
        row.position = Some(p);
        row.health = Some(Health {
            current: 100,
            max: 100,
        });
        row.fuel = Some(Fuel {
            current: stats.max_fuel,
            max: stats.max_fuel,
        });
        row.ammo = Some(Ammo {
            ammo1: stats.max_ammo1,
            ammo2: stats.max_ammo2,
        });
        row.action_completed = Some(false);
        row.stats = Some(stats);
        e
    }

    fn hold(&mut self, transport: Entity, loaded: Vec<Entity>) {
        for cargo in &loaded {
            self.row(*cargo).transporting = Some(transport);
        }
        let max = self.row(transport).stats.as_ref().unwrap().max_cargo;
        self.row(transport).cargo = Some(CargoCapacity { max, loaded });
    }

    fn squad(&mut self, transport: Entity, phase: TransportPhase) -> &mut Squad {
        let id = SquadId(self.scene.manager.squads.len() as u32 + 1);
        self.scene.manager.squads.push(Squad {
            id,
            owner_id: None,
            mission_type: MissionType::Transport,
            phase: MissionPhase::Transport(phase),
            target: None,
            target_island: None,
            transport_entity: Some(transport),
            transport_cargo: None,
            members: vec![transport],
            cargo_entities: vec![],
            delivered_cargo: vec![],
            pickup_position: None,
            drop_position: None,
        });
        self.scene.manager.squads.last_mut().unwrap()
    }

    fn facts(&self, player: u32) -> Vec<IslandCampaignFacts> {
        collect_island_campaign_facts(&self.scene, PlayerId(player))
    }

    fn facts_of(&self, player: u32, island: IslandId) -> IslandCampaignFacts {
        *self
            .facts(player)
            .iter()
            .find(|facts| facts.island_id == island)
            .unwrap()
    }

    fn agenda(&self, player: u32, funds: u32) -> CampaignAgenda {
        analyze_island_campaign(
            &self.scene,
            PlayerId(player),
            &vec![PlayerFunds {
                player_id: PlayerId(player),
                funds,
            }],
            &vec![],
            &vec![],
        )
    }
}

fn sea_map(width: usize, height: usize, tiles: &[(GridPosition, Terrain)]) -> GameMap {
    let mut map = GameMap::new(width, height, Terrain::Sea, GridTopology::Square);
    for (p, terrain) in tiles {
        map.set_terrain(p.x, p.y, *terrain).unwrap();
    }
    map
}

fn owned_squad(id: u32, mission_type: MissionType, owner: PlayerId) -> Squad {
    Squad {
        id: SquadId(id),
        owner_id: Some(owner),
        mission_type,
        phase: MissionPhase::Forming,
        target: None,
        target_island: None,
        transport_entity: None,
        transport_cargo: None,
        members: vec![],
        cargo_entities: vec![],
        delivered_cargo: vec![],
        pickup_position: None,
        drop_position: None,
    }
}

#[test]
fn explicit_squad_owner_conflicts_quarantine_every_referenced_entity() {
    let player_a = PlayerId(1);
    let player_b = PlayerId(2);
    let entity_a = Entity::from_raw(1);
    let entity_b = Entity::from_raw(2);
    let mut owned_by_a = owned_squad(1, MissionType::Capture, player_a);
    owned_by_a.members.push(entity_b);
    let mut owned_by_b = owned_squad(2, MissionType::Transport, player_b);
    owned_by_b.cargo_entities.push(entity_a);
    let manager = SquadManager {
        squads: vec![owned_by_a, owned_by_b],
        solo_fallbacks: vec![],
    };

    let mut unavailable =
        mixed_owner_squad_entities(&manager, &vec![(entity_a, player_a), (entity_b, player_b)]);
    unavailable.sort();
    unavailable.dedup();

    assert_eq!(unavailable, vec![entity_a, entity_b]);
}

fn assessment(
    island_id: IslandId,
    state: IslandCampaignState,
    decision: IslandCampaignDecision,
) -> IslandCampaignAssessment {
    IslandCampaignAssessment {
        island_id,
        state,
        decision,
        decision_reason: String::new(),
        required_budget: 0,
        allocated_budget: 0,
    }
}

#[test]
fn sole_mainland_contested_is_observed_without_campaign_allocation() {
    let own_position = at(1, 1);
    let center = at(2, 1);
    let enemy_position = at(3, 1);
    let mut world = World::new(sea_map(
        5,
        3,
        &[
            (own_position, Terrain::Capital),
            (center, Terrain::Plains),
            (enemy_position, Terrain::City),
        ],
    ));
    let mainland = world.island_at(own_position);
    world.building(own_position, Terrain::Capital, Some(1));
    world.building(enemy_position, Terrain::City, Some(2));
    world.unit(1, own_position, stats(UnitType::Infantry));
    world.unit(2, enemy_position, stats(UnitType::Tank));

    let facts = world.facts(1);
    assert_eq!(sole_capturable_landmass_id(&facts), Some(mainland));
    let mainland_facts = *facts
        .iter()
        .find(|facts| facts.island_id == mainland)
        .unwrap();
    assert!(mainland_facts.enemy_combat_value > mainland_facts.friendly_combat_value);

    let agenda = analyze_island_campaign(
        &world.scene,
        PlayerId(1),
        &vec![],
        &vec![IslandJudgement {
            facts: mainland_facts,
            assessment: assessment(
                mainland,
                IslandCampaignState::Contested,
                IslandCampaignDecision::Contest,
            ),
            assault_budget: 0,
        }],
        &vec![],
    );
    let candidate = agenda
        .candidates
        .iter()
        .find(|candidate| candidate.assessment.island_id == mainland)
        .unwrap();

    assert_eq!(candidate.assessment.state, IslandCampaignState::Contested);
    assert_eq!(
        candidate.assessment.decision,
        IslandCampaignDecision::Observe
    );
    assert_eq!(candidate.assessment.required_budget, 0);
    assert_eq!(candidate.assessment.allocated_budget, 0);
    assert_eq!(candidate.requirement.total_budget, 0);
    assert_eq!(candidate.requirement.capture_units, 0);
    assert_eq!(candidate.requirement.transport_slots, 0);
}

#[test]
fn aggregates_hp_weighted_combat_value_without_support_units() {
    let position = at(1, 1);
    let mut world = World::new(sea_map(3, 3, &[(position, Terrain::Factory)]));
    let island_id = world.island_at(position);
    world.building(position, Terrain::Factory, Some(1));

    let mut infantry = stats(UnitType::Infantry);
    infantry.cost = 1_000;
    let damaged = world.unit(1, position, infantry.clone());
    world.row(damaged).health = Some(Health {
        current: 50,
        max: 100,
    });
    world.unit(2, position, infantry);

    let mut helicopter = stats(UnitType::TransportHelicopter);
    helicopter.cost = 4_000;
    world.unit(1, position, helicopter);

    let island = world.facts_of(1, island_id);

    assert_eq!(island.friendly_units, 2);
    assert_eq!(island.enemy_units, 1);
    assert_eq!(island.friendly_combat_value, 500);
    assert_eq!(island.enemy_combat_value, 1_000);
    assert_eq!(island.friendly_properties, 1);
    assert_eq!(island.strategic_production_sites, 1);
    assert_eq!(island.roi_production_sites, 1);
}

#[test]
fn attributes_loaded_cargo_to_the_live_transport_target_once() {
    let origin = at(0, 1);
    let target = at(4, 1);
    let mut world = World::new(sea_map(
        5,
        3,
        &[(origin, Terrain::Airport), (target, Terrain::City)],
    ));
    let origin_island = world.island_at(origin);
    let target_island = world.island_at(target);
    world.building(origin, Terrain::Airport, Some(1));
    world.building(target, Terrain::City, None);

    let mut infantry = stats(UnitType::Infantry);
    infantry.cost = 1_000;
    let cargo = world.unit(1, origin, infantry);
    let mut helicopter = stats(UnitType::TransportHelicopter);
    helicopter.cost = 4_000;
    let transport = world.unit(1, origin, helicopter);
    world.hold(transport, vec![cargo]);
    world.row(cargo).position = Some(at(9_999, 9_999));

    let squad = world.squad(transport, TransportPhase::Transit);
    squad.cargo_entities.push(cargo);
    squad.target_island = Some(target_island);
    squad.target = Some(target);

    let origin_facts = world.facts_of(1, origin_island);
    let target_facts = world.facts_of(1, target_island);

    assert_eq!(origin_facts.friendly_combat_value, 0);
    assert_eq!(target_facts.friendly_units, 0);
    assert_eq!(target_facts.friendly_combat_value, 1_000);
    assert!(target_facts.friendly_arrival_eta.is_some());
    assert!(target_facts.friendly_capture_eta.is_some());
}

#[test]
fn mismatched_loaded_cargo_is_not_attributed_to_the_claiming_transport_target() {
    let origin = at(0, 0);
    let target = at(2, 0);
    let mut world = World::new(sea_map(
        3,
        1,
        &[(origin, Terrain::Airport), (target, Terrain::City)],
    ));
    let target_island = world.island_at(target);
    world.building(origin, Terrain::Airport, Some(1));
    world.building(target, Terrain::City, None);

    let mut infantry = stats(UnitType::Infantry);
    infantry.cost = 1_000;
    let cargo = world.unit(1, at(9_999, 9_999), infantry);
    let claiming_transport = world.unit(1, origin, stats(UnitType::TransportHelicopter));
    world.hold(claiming_transport, vec![]);
    let actual_transport = world.unit(1, origin, stats(UnitType::TransportHelicopter));
    world.hold(actual_transport, vec![cargo]);

    let stale = world.squad(claiming_transport, TransportPhase::Transit);
    stale.cargo_entities = vec![cargo];
    stale.target_island = Some(target_island);
    stale.target = Some(target);

    let target_facts = world.facts_of(1, target_island);
    assert_eq!(target_facts.friendly_combat_value, 0);
    assert_eq!(target_facts.friendly_capture_eta, None);
}

#[test]
fn opponent_transport_operation_is_not_friendly_campaign_continuity() {
    let origin = at(0, 0);
    let target = at(2, 0);
    let mut world = World::new(sea_map(
        3,
        1,
        &[(origin, Terrain::Airport), (target, Terrain::City)],
    ));
    let target_island = world.island_at(target);
    world.building(origin, Terrain::Airport, Some(1));
    world.building(target, Terrain::City, None);

    let mut infantry = stats(UnitType::Infantry);
    infantry.cost = 1_000;
    let cargo = world.unit(2, origin, infantry);
    let transport = world.unit(2, origin, stats(UnitType::TransportHelicopter));
    world.hold(transport, vec![cargo]);
    world.row(cargo).position = Some(at(9_999, 9_999));

    let squad = world.squad(transport, TransportPhase::Transit);
    squad.cargo_entities.push(cargo);
    squad.target_island = Some(target_island);
    squad.target = Some(target);

    let target_facts = world.facts_of(1, target_island);
    let agenda = world.agenda(1, 0);

    assert_eq!(target_facts.friendly_combat_value, 0);
    assert_eq!(target_facts.friendly_arrival_eta, None);
    assert_eq!(target_facts.friendly_capture_eta, None);
    assert!(agenda
        .candidates
        .iter()
        .all(|candidate| candidate.existing_operation.is_none()));
    assert_eq!(agenda.pool.available_funds, 0);
    assert!(agenda.pool.units.is_empty());
}

#[test]
fn treats_a_foothold_as_reachable_but_rejects_missing_transport_modes() {
    let foothold = at(0, 1);
    let unreachable = at(2, 1);
    let mut world = World::new(sea_map(
        3,
        3,
        &[(foothold, Terrain::Factory), (unreachable, Terrain::City)],
    ));
    let foothold_island = world.island_at(foothold);
    let unreachable_island = world.island_at(unreachable);
    world.building(foothold, Terrain::Factory, Some(1));
    world.building(unreachable, Terrain::City, None);

    let foothold_facts = world.facts_of(1, foothold_island);
    let unreachable_facts = world.facts_of(1, unreachable_island);

    assert!(foothold_facts.reachable);
    assert!(!unreachable_facts.reachable);
    assert_eq!(unreachable_facts.transport_eta, None);
}

#[test]
fn pickup_phase_eta_includes_pickup_transit_and_capture() {
    let transport_position = at(0, 1);
    let pickup_position = at(2, 1);
    let target_position = at(4, 1);
    let mut world = World::new(sea_map(
        5,
        3,
        &[
            (transport_position, Terrain::Airport),
            (pickup_position, Terrain::Plains),
            (target_position, Terrain::City),
        ],
    ));
    let target_island = world.island_at(target_position);
    world.building(transport_position, Terrain::Airport, Some(1));
    world.building(target_position, Terrain::City, None);

    let cargo = world.unit(1, pickup_position, stats(UnitType::Infantry));
    let transport = world.unit(1, transport_position, stats(UnitType::TransportHelicopter));
    world.hold(transport, vec![]);

    let squad = world.squad(transport, TransportPhase::Pickup);
    squad.cargo_entities.push(cargo);
    squad.pickup_position = Some(pickup_position);
    squad.target_island = Some(target_island);
    squad.target = Some(target_position);

    let target_facts = world.facts_of(1, target_island);

    assert_eq!(target_facts.friendly_capture_eta, Some(4));
}

#[test]
fn drop_phase_capture_eta_starts_from_the_live_drop_position() {
    let origin = at(0, 1);
    let drop_position = at(3, 1);
    let target_position = at(4, 1);
    let mut world = World::new(sea_map(
        5,
        3,
        &[
            (origin, Terrain::Airport),
            (drop_position, Terrain::Plains),
            (target_position, Terrain::City),
        ],
    ));
    let target_island = world.island_at(target_position);
    world.building(origin, Terrain::Airport, Some(1));
    world.building(target_position, Terrain::City, None);

    let cargo = world.unit(1, origin, stats(UnitType::Infantry));
    let transport = world.unit(1, drop_position, stats(UnitType::TransportHelicopter));
    world.hold(transport, vec![cargo]);
    world.row(cargo).position = Some(at(9_999, 9_999));

    let squad = world.squad(transport, TransportPhase::Drop);
    squad.cargo_entities.push(cargo);
    squad.drop_position = Some(drop_position);
    squad.target_island = Some(target_island);
    squad.target = Some(target_position);

    let target_facts = world.facts_of(1, target_island);

    assert_eq!(target_facts.friendly_capture_eta, Some(2));
}

#[test]
fn transit_capture_eta_is_conservative_before_drop_selection() {
    let origin = at(0, 1);
    let coast = at(2, 1);
    let middle = at(3, 1);
    let target = at(4, 1);
    let mut world = World::new(sea_map(
        5,
        3,
        &[
            (origin, Terrain::Airport),
            (coast, Terrain::Plains),
            (middle, Terrain::Plains),
            (target, Terrain::City),
        ],
    ));
    let target_island = world.island_at(target);
    world.building(origin, Terrain::Airport, Some(1));
    world.building(target, Terrain::City, None);

    let cargo = world.unit(1, origin, stats(UnitType::Infantry));
    let transport = world.unit(1, origin, stats(UnitType::TransportHelicopter));
    world.hold(transport, vec![cargo]);
    world.row(cargo).position = Some(at(9_999, 9_999));

    let squad = world.squad(transport, TransportPhase::Transit);
    squad.cargo_entities.push(cargo);
    squad.target_island = Some(target_island);
    squad.target = Some(target);

    let target_facts = world.facts_of(1, target_island);

    assert_eq!(target_facts.friendly_capture_eta, Some(3));
}

#[test]
fn repeated_analysis_does_not_mutate_squads_or_shared_distance_cache() {
    let origin = at(0, 1);
    let target = at(2, 1);
    let mut world = World::new(sea_map(
        3,
        3,
        &[(origin, Terrain::Airport), (target, Terrain::City)],
    ));
    let target_island = world.island_at(target);
    world.building(origin, Terrain::Airport, Some(1));
    world.building(target, Terrain::City, None);

    let cargo = world.unit(1, origin, stats(UnitType::Infantry));
    let transport = world.unit(1, origin, stats(UnitType::TransportHelicopter));
    world.hold(transport, vec![cargo]);
    world.row(cargo).position = Some(at(9_999, 9_999));

    let squad = world.squad(transport, TransportPhase::Pickup);
    squad.cargo_entities.push(cargo);
    squad.pickup_position = Some(origin);
    squad.target_island = Some(target_island);
    squad.target = Some(target);

    let sentinel = Route {
        traveller: Traveller {
            player_id: PlayerId(1),
            movement_type: MovementType::Air,
            max_movement: 1,
        },
        start: at(0, 0),
        target: at(0, 0),
        distance: TurnDistance {
            turns: 77,
            used_mp: 88,
        },
    };
    world.scene.travel.routes.push(sentinel);
    let routes_before = world.scene.travel.routes.clone();

    let first = world.facts(1);
    let second = world.facts(1);

    assert_eq!(first, second);
    assert_eq!(
        world.scene.manager.squads[0].phase,
        MissionPhase::Transport(TransportPhase::Pickup)
    );
    assert_eq!(world.scene.travel.routes, routes_before);
    assert_eq!(world.scene.travel.routes.last(), Some(&sentinel));
}

fn transport_preference_world(
    target_owner: Option<u32>,
    held_transport: UnitType,
    held_cost: u32,
) -> (World, IslandId) {
    let port = at(0, 1);
    let airport = at(0, 0);
    let target = at(4, 1);
    let mut world = World::new(sea_map(
        5,
        3,
        &[
            (port, Terrain::Port),
            (airport, Terrain::Airport),
            (target, Terrain::Port),
        ],
    ));
    let target_island = world.island_at(target);
    world.building(port, Terrain::Port, Some(1));
    world.building(airport, Terrain::Airport, Some(1));
    world.building(target, Terrain::City, target_owner);
    if let Some(owner) = target_owner {
        world.unit(owner, target, stats(UnitType::Infantry));
    }

    let mut held = stats(held_transport);
    held.cost = held_cost;
    let position = if held_transport == UnitType::Lander {
        port
    } else {
        airport
    };
    let transport = world.unit(1, position, held);
    world.hold(transport, vec![]);
    (world, target_island)
}

#[test]
fn open_neutral_prefers_producible_helicopter_over_cheaper_held_lander() {
    let (world, target_island) = transport_preference_world(None, UnitType::Lander, 1);

    let target = world.facts_of(1, target_island);

    assert_eq!(target.missing_expansion_package_cost, 6_000);
}

#[test]
fn enemy_held_uses_cheapest_reachable_transport_fallback() {
    let (world, target_island) = transport_preference_world(Some(2), UnitType::Lander, 1);

    let target = world.facts_of(1, target_island);

    assert_eq!(target.missing_expansion_package_cost, 2_000);
}

#[test]
fn held_helicopter_is_not_charged_as_a_producible_transport() {
    let (world, target_island) =
        transport_preference_world(None, UnitType::TransportHelicopter, 4_000);

    let target = world.facts_of(1, target_island);

    assert_eq!(target.missing_expansion_package_cost, 2_000);
}

#[test]
fn transport_stats_without_cargo_capacity_do_not_satisfy_campaign_package() {
    let origin = at(0, 0);
    let target = at(2, 0);
    let mut world = World::new(sea_map(
        3,
        1,
        &[(origin, Terrain::City), (target, Terrain::City)],
    ));
    let target_island = world.island_at(target);
    world.building(origin, Terrain::City, Some(1));
    world.building(target, Terrain::City, None);

    world.unit(1, origin, stats(UnitType::Infantry));
    world.unit(1, origin, stats(UnitType::Infantry));
    let transport = world.unit(1, origin, stats(UnitType::TransportHelicopter));

    let target_facts = world.facts_of(1, target_island);
    assert!(!target_facts.reachable);
    assert!(world
        .agenda(1, 0)
        .pool
        .units
        .iter()
        .all(|unit| unit.entity != transport));

    world.hold(transport, vec![]);
    let with_capacity = world.facts_of(1, target_island);
    assert!(with_capacity.reachable);
    let agenda = world.agenda(1, 0);
    let offered: Vec<Entity> = agenda
        .pool
        .units
        .iter()
        .filter(|unit| unit.available_cargo_slots > 0)
        .map(|unit| unit.entity)
        .collect();
    assert_eq!(offered, vec![transport]);

    world.row(transport).fuel = Some(Fuel {
        current: 0,
        max: 99,
    });
    let without_fuel = world.facts_of(1, target_island);
    assert!(!without_fuel.reachable);
    assert!(world
        .agenda(1, 0)
        .pool
        .units
        .iter()
        .all(|unit| unit.entity != transport));
}

#[test]
fn pickup_eta_waits_for_distant_cargo_before_loading() {
    let cargo_position = at(0, 1);
    let pickup = at(6, 1);
    let target = at(8, 1);
    let mut tiles: Vec<(GridPosition, Terrain)> =
        (0..=5).map(|x| (at(x, 1), Terrain::Plains)).collect();
    tiles.push((pickup, Terrain::Airport));
    tiles.push((target, Terrain::City));
    let mut world = World::new(sea_map(9, 3, &tiles));
    let target_island = world.island_at(target);
    world.building(pickup, Terrain::Airport, Some(1));
    world.building(target, Terrain::City, None);

    let cargo = world.unit(1, cargo_position, stats(UnitType::Infantry));
    let transport = world.unit(1, pickup, stats(UnitType::TransportHelicopter));
    world.hold(transport, vec![]);

    let squad = world.squad(transport, TransportPhase::Pickup);
    squad.cargo_entities.push(cargo);
    squad.pickup_position = Some(pickup);
    squad.target_island = Some(target_island);
    squad.target = Some(target);

    let target = world.facts_of(1, target_island);

    assert_eq!(target.friendly_capture_eta, Some(5));
}

#[test]
fn pickup_eta_is_none_when_assigned_cargo_cannot_reach_rendezvous() {
    let cargo_position = at(0, 1);
    let pickup = at(2, 1);
    let target = at(4, 1);
    let mut world = World::new(sea_map(
        5,
        3,
        &[
            (cargo_position, Terrain::Plains),
            (pickup, Terrain::Airport),
            (target, Terrain::City),
        ],
    ));
    let target_island = world.island_at(target);
    world.building(pickup, Terrain::Airport, Some(1));
    world.building(target, Terrain::City, None);

    let cargo = world.unit(1, cargo_position, stats(UnitType::Infantry));
    let reachable_cargo = world.unit(1, pickup, stats(UnitType::Infantry));
    let transport = world.unit(1, pickup, stats(UnitType::TransportHelicopter));
    world.hold(transport, vec![]);

    let squad = world.squad(transport, TransportPhase::Pickup);
    squad.cargo_entities.push(cargo);
    squad.cargo_entities.push(reachable_cargo);
    squad.pickup_position = Some(pickup);
    squad.target_island = Some(target_island);
    squad.target = Some(target);

    let target = world.facts_of(1, target_island);

    assert_eq!(target.friendly_capture_eta, None);
}

#[test]
fn transit_eta_uses_planned_drop_instead_of_nearest_island_tile() {
    let origin = at(0, 1);
    let nearest_coast = at(2, 1);
    let planned_drop = at(8, 1);
    let mut tiles: Vec<(GridPosition, Terrain)> = (nearest_coast.x..=planned_drop.x)
        .map(|x| (at(x, 1), Terrain::Plains))
        .collect();
    tiles.push((origin, Terrain::Airport));
    tiles.push((planned_drop, Terrain::City));
    let mut world = World::new(sea_map(9, 3, &tiles));
    let target_island = world.island_at(planned_drop);
    world.building(origin, Terrain::Airport, Some(1));
    world.building(planned_drop, Terrain::City, None);

    let cargo = world.unit(1, origin, stats(UnitType::Infantry));
    let transport = world.unit(1, origin, stats(UnitType::TransportHelicopter));
    world.hold(transport, vec![cargo]);
    world.row(cargo).position = Some(at(9_999, 9_999));

    let squad = world.squad(transport, TransportPhase::Transit);
    squad.cargo_entities.push(cargo);
    squad.drop_position = Some(planned_drop);
    squad.target_island = Some(target_island);
    squad.target = Some(planned_drop);

    let target = world.facts_of(1, target_island);

    assert_eq!(target.friendly_capture_eta, Some(3));
}

#[test]
fn return_phase_assets_do_not_reduce_target_package_cost() {
    let origin = at(0, 1);
    let target = at(2, 1);
    let mut world = World::new(sea_map(
        3,
        3,
        &[(origin, Terrain::Airport), (target, Terrain::City)],
    ));
    let target_island = world.island_at(target);
    world.building(origin, Terrain::Airport, Some(1));
    world.building(target, Terrain::City, None);

    let cargo = world.unit(1, origin, stats(UnitType::Infantry));
    let transport = world.unit(1, origin, stats(UnitType::TransportHelicopter));
    world.hold(transport, vec![cargo]);
    world.row(cargo).position = Some(at(9_999, 9_999));
    let active_transport = world.unit(1, origin, stats(UnitType::TransportHelicopter));
    world.hold(active_transport, vec![]);

    let squad = world.squad(transport, TransportPhase::Return);
    squad.cargo_entities.push(cargo);
    squad.target_island = Some(target_island);
    squad.target = Some(target);
    let active_squad = world.squad(active_transport, TransportPhase::Transit);
    active_squad.target_island = Some(target_island);
    active_squad.target = Some(target);

    let target = world.facts_of(1, target_island);

    assert_eq!(target.missing_expansion_package_cost, 2_000);
}

#[test]
fn targetless_live_drop_with_unrelated_cargo_is_unavailable_to_new_campaigns() {
    let origin = at(0, 0);
    let target = at(2, 0);
    let mut world = World::new(sea_map(
        3,
        1,
        &[(origin, Terrain::City), (target, Terrain::City)],
    ));
    let target_island = world.island_at(target);
    world.building(origin, Terrain::City, Some(1));
    world.building(target, Terrain::City, None);

    world.unit(1, origin, stats(UnitType::Infantry));
    world.unit(1, origin, stats(UnitType::Infantry));
    let unrelated_cargo = world.unit(1, at(9_999, 9_999), stats(UnitType::Infantry));
    let transport = world.unit(1, origin, stats(UnitType::TransportHelicopter));
    world.hold(transport, vec![unrelated_cargo]);

    let safe_drop = world.squad(transport, TransportPhase::Drop);
    safe_drop.cargo_entities = vec![unrelated_cargo];

    let target_facts = world.facts_of(1, target_island);
    assert!(!target_facts.reachable);
    assert_eq!(target_facts.transport_eta, None);

    let first = world.agenda(1, 0);
    let second = world.agenda(1, 0);
    assert!(first
        .candidates
        .iter()
        .all(|candidate| candidate.existing_operation.is_none()));
    let entities = |agenda: &CampaignAgenda| -> Vec<Entity> {
        agenda.pool.units.iter().map(|unit| unit.entity).collect()
    };
    assert!(!entities(&first).contains(&transport));
    assert_eq!(entities(&second), entities(&first));
    let retained = &world.scene.manager.squads[0];
    assert_eq!(retained.transport_entity, Some(transport));
    assert_eq!(retained.cargo_entities, vec![unrelated_cargo]);
    assert_eq!(retained.target_island, None);
    assert_eq!(retained.target, None);
    assert_eq!(
        retained.phase,
        MissionPhase::Transport(TransportPhase::Drop)
    );
}

#[test]
fn campaign_requirements_reserve_full_target_power_before_adding_reinforcements() {
    let mut threatened_facts = IslandCampaignFacts {
        island_id: IslandId(0),
        capturable_properties: 1,
        strategic_production_sites: 0,
        roi_production_sites: 0,
        neutral_properties: 0,
        friendly_properties: 1,
        enemy_properties: 0,
        friendly_units: 1,
        enemy_units: 0,
        friendly_combat_value: 4_000,
        enemy_combat_value: 10_000,
        friendly_arrival_eta: Some(0),
        enemy_arrival_eta: Some(1),
        friendly_capture_eta: None,
        enemy_capture_eta: None,
        transport_eta: Some(0),
        capture_turns: 0,
        island_income_per_turn: 1_000,
        missing_expansion_package_cost: 0,
        reachable: true,
        has_unowned_properties: false,
    };
    let mut defense = assessment(
        IslandId(0),
        IslandCampaignState::Threatened,
        IslandCampaignDecision::Defend,
    );
    let defense_requirement = requirement_for_assessment(&threatened_facts, &mut defense, 0);
    assert_eq!(defense_requirement.combat_budget, 10_000);

    threatened_facts.friendly_units = 1;
    threatened_facts.enemy_units = 1;
    threatened_facts.friendly_properties = 0;
    threatened_facts.friendly_capture_eta = Some(5);
    threatened_facts.enemy_capture_eta = Some(2);
    let mut reinforcement = assessment(
        IslandId(0),
        IslandCampaignState::Contested,
        IslandCampaignDecision::Contest,
    );
    let reinforcement_requirement =
        requirement_for_assessment(&threatened_facts, &mut reinforcement, 0);
    assert_eq!(reinforcement.decision, IslandCampaignDecision::Reinforce);
    assert_eq!(reinforcement_requirement.combat_budget, 12_000);
    assert!(!contested_is_competitive(&threatened_facts));
}

#[test]
fn analyze_reserves_a_complete_held_expansion_package_without_mutating_world() {
    let origin = at(0, 1);
    let target = at(2, 1);
    let mut world = World::new(sea_map(
        3,
        3,
        &[(origin, Terrain::Airport), (target, Terrain::City)],
    ));
    let target_island = world.island_at(target);
    world.building(origin, Terrain::Airport, Some(1));
    world.building(target, Terrain::City, None);

    let capture_a = world.unit(1, origin, stats(UnitType::Infantry));
    let capture_b = world.unit(1, origin, stats(UnitType::Infantry));
    let transport = world.unit(1, origin, stats(UnitType::TransportHelicopter));
    world.hold(transport, vec![]);

    let facts = world.facts_of(1, target_island);
    let agenda = analyze_island_campaign(
        &world.scene,
        PlayerId(1),
        &vec![],
        &vec![IslandJudgement {
            facts,
            assessment: assessment(
                target_island,
                IslandCampaignState::OpenNeutral,
                IslandCampaignDecision::Expand,
            ),
            assault_budget: 0,
        }],
        &vec![],
    );

    let candidate = agenda
        .candidates
        .iter()
        .find(|candidate| candidate.assessment.island_id == target_island)
        .unwrap();
    assert_eq!(
        candidate.assessment.decision,
        IslandCampaignDecision::Expand
    );
    assert_eq!(
        candidate.requirement.preferred_transport,
        Some(UnitType::TransportHelicopter)
    );
    assert_eq!(candidate.requirement.transport_slots, 2);
    assert_eq!(candidate.requirement.capture_units, 2);
    assert_eq!(candidate.target_position, target);
    let transports: Vec<Entity> = agenda
        .pool
        .units
        .iter()
        .filter(|unit| unit.available_cargo_slots > 0)
        .map(|unit| unit.entity)
        .collect();
    assert_eq!(transports, vec![transport]);
    let captures: Vec<Entity> = agenda
        .pool
        .units
        .iter()
        .filter(|unit| unit.can_capture)
        .map(|unit| unit.entity)
        .collect();
    let mut expected_capture_entities = vec![capture_a, capture_b];
    expected_capture_entities.sort_by_key(|entity| entity.to_bits());
    assert_eq!(captures, expected_capture_entities);
    for entity in [transport, capture_a, capture_b] {
        assert_eq!(world.row(entity).position, Some(origin));
    }
}

#[test]
fn solo_fallback_capture_is_not_reused_by_campaign_pool() {
    let origin = at(0, 1);
    let target = at(2, 1);
    let mut world = World::new(sea_map(
        3,
        3,
        &[(origin, Terrain::Airport), (target, Terrain::City)],
    ));
    world.building(origin, Terrain::Airport, Some(1));
    world.building(target, Terrain::City, None);

    let fallback = world.unit(1, origin, stats(UnitType::Infantry));
    world.unit(1, origin, stats(UnitType::Infantry));
    let transport = world.unit(1, origin, stats(UnitType::TransportHelicopter));
    world.hold(transport, vec![]);
    world.scene.manager.solo_fallbacks.push(fallback);

    let agenda = world.agenda(1, 0);

    assert!(agenda.pool.units.iter().all(|unit| unit.entity != fallback));
    assert_eq!(agenda.pool.units.len(), 2);
}

#[test]
fn analyze_does_not_reuse_return_phase_delivered_cargo_as_a_held_candidate() {
    let origin = at(0, 1);
    let target = at(2, 1);
    let mut world = World::new(sea_map(
        3,
        3,
        &[(origin, Terrain::Airport), (target, Terrain::City)],
    ));
    let target_island = world.island_at(target);
    world.building(origin, Terrain::Airport, Some(1));
    world.building(target, Terrain::City, None);

    let returned_cargo = world.unit(1, origin, stats(UnitType::Infantry));
    let returning_transport = world.unit(1, origin, stats(UnitType::TransportHelicopter));
    let active_transport = world.unit(1, origin, stats(UnitType::TransportHelicopter));

    let returning = world.squad(returning_transport, TransportPhase::Return);
    returning.delivered_cargo.push(returned_cargo);
    returning.target_island = Some(target_island);
    returning.target = Some(target);
    let active = world.squad(active_transport, TransportPhase::Transit);
    active.target_island = Some(target_island);
    active.target = Some(target);

    let agenda = world.agenda(1, 1_000);

    assert!(agenda
        .pool
        .units
        .iter()
        .all(|unit| unit.entity != returned_cargo && unit.entity != returning_transport));
    assert_eq!(agenda.pool.available_funds, 1_000);
}

#[test]
fn reserved_units_are_left_out_of_the_pool() {
    let origin = at(0, 0);
    let mut world = World::new(sea_map(2, 1, &[(origin, Terrain::City)]));
    world.building(origin, Terrain::City, Some(1));
    let kept = world.unit(1, origin, stats(UnitType::Infantry));
    let reserved = world.unit(1, origin, stats(UnitType::Infantry));

    let agenda = analyze_island_campaign_excluding(
        &world.scene,
        PlayerId(1),
        &vec![reserved],
        &vec![],
        &vec![],
        &vec![],
    );

    let entities: Vec<Entity> = agenda.pool.units.iter().map(|unit| unit.entity).collect();
    assert_eq!(entities, vec![kept]);
}

#[test]
fn superior_value_is_a_fifth_more_rounded_up() {
    assert_eq!(scaled_combat_requirement(10_000), 12_000);
    assert_eq!(scaled_combat_requirement(1), 2);
    assert_eq!(scaled_combat_requirement(0), 0);
    assert_eq!(scaled_combat_requirement(3_579_139_412), 4_294_967_295);
    assert_eq!(scaled_combat_requirement(3_579_139_411), 4_294_967_294);
    assert_eq!(scaled_combat_requirement(3_579_139_413), u32::MAX);
    assert_eq!(scaled_combat_requirement(u32::MAX), u32::MAX);
}

#[test]
fn small_figures_of_time_and_worth() {
    assert_eq!(min_option(None, Some(3)), Some(3));
    assert_eq!(min_option(Some(2), Some(3)), Some(2));
    assert_eq!(min_option(Some(2), None), Some(2));
    assert_eq!(ceil_div(7, 2), 4);
    assert_eq!(ceil_div(7, 0), u32::MAX);
    let hurt = Health {
        current: 41,
        max: 100,
    };
    assert_eq!(
        capture_turns(&Property::new(Terrain::City, None, 100), hurt),
        2
    );
    assert_eq!(
        hp_weighted_combat_value(&stats(UnitType::Infantry), hurt),
        410
    );
    assert_eq!(
        hp_weighted_combat_value(&stats(UnitType::TransportHelicopter), hurt),
        0
    );
}

#[test]
fn funds_are_those_of_the_first_entry() {
    let players = vec![
        PlayerFunds {
            player_id: PlayerId(1),
            funds: 5,
        },
        PlayerFunds {
            player_id: PlayerId(2),
            funds: 7,
        },
        PlayerFunds {
            player_id: PlayerId(2),
            funds: 9,
        },
    ];
    assert_eq!(player_funds(&players, PlayerId(2)), 7);
    assert_eq!(player_funds(&players, PlayerId(3)), 0);
}

#[test]
fn every_building_is_counted_once() {
    let tiles = [at(1, 1), at(2, 1), at(3, 1), at(4, 1)];
    let land: Vec<(GridPosition, Terrain)> = tiles.iter().map(|p| (*p, Terrain::City)).collect();
    let mut world = World::new(sea_map(6, 3, &land));
    let island_id = world.island_at(tiles[0]);
    world.building(tiles[0], Terrain::City, None);
    world.building(tiles[1], Terrain::City, Some(1));
    world.building(tiles[2], Terrain::City, Some(2));
    world.building(tiles[3], Terrain::City, Some(2));

    let facts = world.facts_of(1, island_id);

    assert_eq!(facts.capturable_properties, 4);
    assert_eq!(facts.neutral_properties, 1);
    assert_eq!(facts.friendly_properties, 1);
    assert_eq!(facts.enemy_properties, 2);
    assert!(facts.has_unowned_properties);
}

#[test]
fn disputed_units_are_nobodys() {
    let position = at(1, 1);
    let mut world = World::new(sea_map(3, 3, &[(position, Terrain::Factory)]));
    let island_id = world.island_at(position);
    let own = world.unit(1, position, stats(UnitType::Infantry));
    world.unit(1, position, stats(UnitType::Infantry));
    assert_eq!(world.facts_of(1, island_id).friendly_units, 2);

    let mut squad = owned_squad(1, MissionType::Capture, PlayerId(2));
    squad.members.push(own);
    world.scene.manager.squads.push(squad);
    assert_eq!(world.facts_of(1, island_id).friendly_units, 1);
    assert_eq!(world.facts_of(2, island_id).enemy_units, 1);
}

/// A judgement by the buildings and units that the facts count.
fn judged(facts: &IslandCampaignFacts) -> IslandJudgement {
    let (state, decision) = if facts.capturable_properties == 0 {
        (
            IslandCampaignState::Ignored,
            IslandCampaignDecision::Observe,
        )
    } else if facts.enemy_properties > 0 && facts.friendly_properties == 0 {
        (
            IslandCampaignState::EnemyHeld,
            IslandCampaignDecision::Observe,
        )
    } else if facts.friendly_properties > 0 && facts.enemy_units == 0 {
        (
            IslandCampaignState::Secured,
            IslandCampaignDecision::Secure,
        )
    } else {
        (
            IslandCampaignState::OpenNeutral,
            IslandCampaignDecision::Expand,
        )
    };
    IslandJudgement {
        facts: *facts,
        assessment: assessment(facts.island_id, state, decision),
        assault_budget: 0,
    }
}

#[test]
fn reconstructs_initial_state_for_every_island() {
    let own_position = at(0, 1);
    let enemy_position = at(2, 1);
    let neutral_position = at(4, 1);
    let ignored_position = at(6, 1);
    let mut world = World::new(sea_map(
        7,
        3,
        &[
            (own_position, Terrain::Airport),
            (enemy_position, Terrain::Capital),
            (neutral_position, Terrain::City),
            (ignored_position, Terrain::Plains),
        ],
    ));
    let own_island = world.island_at(own_position);
    let enemy_island = world.island_at(enemy_position);
    let neutral_island = world.island_at(neutral_position);
    let ignored_island = world.island_at(ignored_position);
    world.building(own_position, Terrain::Airport, Some(1));
    world.building(enemy_position, Terrain::Capital, Some(2));
    world.building(neutral_position, Terrain::City, None);
    world.unit(1, own_position, stats(UnitType::Infantry));
    world.unit(2, enemy_position, stats(UnitType::Infantry));

    let judgements = world.facts(1).iter().map(judged).collect();
    let agenda = analyze_island_campaign(
        &world.scene,
        PlayerId(1),
        &vec![],
        &judgements,
        &vec![],
    );
    let states: Vec<(IslandId, IslandCampaignState)> = agenda
        .candidates
        .iter()
        .map(|c| (c.assessment.island_id, c.assessment.state))
        .collect();

    assert_eq!(
        states,
        vec![
            (own_island, IslandCampaignState::Secured),
            (enemy_island, IslandCampaignState::EnemyHeld),
            (neutral_island, IslandCampaignState::OpenNeutral),
            (ignored_island, IslandCampaignState::Ignored),
        ]
    );
    let offensives = agenda.candidates.iter().filter(|c| {
        matches!(
            c.assessment.decision,
            IslandCampaignDecision::Expand
                | IslandCampaignDecision::Contest
                | IslandCampaignDecision::Assault
        )
    });
    assert!(offensives.count() <= 3);
    assert!(agenda
        .candidates
        .iter()
        .all(|c| c.assessment.decision != IslandCampaignDecision::Defend));
}

#[test]
fn islands_that_share_a_number_share_one_entry() {
    let west = at(0, 1);
    let east = at(4, 1);
    let mut world = World::new(sea_map(
        5,
        3,
        &[(west, Terrain::City), (east, Terrain::City)],
    ));
    for island in world.scene.islands.islands.iter_mut() {
        island.id = IslandId(7);
    }
    world.building(west, Terrain::City, None);
    world.building(east, Terrain::City, Some(2));

    let facts = world.facts(1);

    assert_eq!(facts.len(), 2);
    assert_eq!(facts[0].capturable_properties, 0);
    assert_eq!(facts[1].capturable_properties, 2);
    assert_eq!(facts[1].neutral_properties, 1);
    assert_eq!(facts[1].enemy_properties, 1);
}

fn snapshot(p: GridPosition, terrain: Terrain, owner: Option<u32>) -> PropertySnapshot {
    PropertySnapshot {
        position: p,
        property: Property::new(terrain, owner.map(PlayerId), 100),
    }
}

#[test]
fn a_campaign_goes_for_the_first_prize() {
    let island = Island {
        id: IslandId(0),
        tiles: vec![at(3, 1), at(1, 1), at(2, 0), at(0, 0)],
    };
    let properties = vec![
        snapshot(at(1, 1), Terrain::City, None),
        snapshot(at(2, 0), Terrain::City, Some(2)),
        snapshot(at(0, 0), Terrain::City, Some(1)),
        snapshot(at(1, 0), Terrain::City, None),
    ];
    let target = |properties: &Vec<PropertySnapshot>| {
        candidate_target_position(&island, properties, PlayerId(1), None)
    };
    assert_eq!(target(&properties), Some(at(2, 0)));
    assert_eq!(target(&vec![properties[0], properties[2]]), Some(at(1, 1)));
    assert_eq!(target(&vec![properties[2]]), Some(at(0, 0)));
}

#[test]
fn the_cheapest_fighting_unit_is_found_over_all_buildings() {
    let mut registry = registry();
    let factory = snapshot(at(0, 0), Terrain::Factory, Some(1));
    let airport = snapshot(at(1, 0), Terrain::Airport, Some(1));
    let foreign = snapshot(at(2, 0), Terrain::Factory, Some(2));
    let all = vec![at(0, 0), at(1, 0), at(2, 0)];
    let least = |registry: &MasterDataRegistry, properties: Vec<PropertySnapshot>| {
        minimum_producible_campaign_combat_cost(registry, &properties, PlayerId(1), &all)
    };
    assert_eq!(least(&registry, vec![airport, factory]), Some(1_000));
    assert_eq!(least(&registry, vec![airport, foreign]), None);
    registry.landscapes[0].produces = vec![UnitType::Tank];
    assert_eq!(least(&registry, vec![airport, factory]), Some(7_000));
    assert_eq!(
        minimum_producible_campaign_combat_cost(
            &registry,
            &vec![factory],
            PlayerId(1),
            &vec![at(1, 0)]
        ),
        None
    );
}

#[test]
fn ships_serve_an_island_from_beside_it() {
    let map = sea_map(4, 2, &[(at(2, 1), Terrain::City), (at(1, 1), Terrain::Port)]);
    let island = Island {
        id: IslandId(0),
        tiles: vec![at(2, 1), at(1, 1)],
    };
    let targets =
        |movement_type| movement_targets_for_island(&map, &registry(), &island, movement_type);
    assert_eq!(
        targets(MovementType::Ship),
        vec![at(1, 0), at(2, 0), at(0, 1), at(1, 1), at(3, 1)]
    );
    assert_eq!(targets(MovementType::Air), vec![at(1, 1), at(2, 1)]);
}

#[test]
fn squads_for_one_island_make_one_campaign() {
    let home = at(0, 0);
    let near = at(2, 0);
    let far = at(4, 0);
    let mut world = World::new(sea_map(
        6,
        1,
        &[
            (home, Terrain::City),
            (near, Terrain::City),
            (far, Terrain::City),
            (at(5, 0), Terrain::City),
        ],
    ));
    let near_island = world.island_at(near);
    let far_island = world.island_at(far);
    let enemy = world.unit(2, home, stats(UnitType::TransportHelicopter));
    let first = world.unit(1, home, stats(UnitType::TransportHelicopter));
    let second = world.unit(1, home, stats(UnitType::TransportHelicopter));
    let third = world.unit(1, home, stats(UnitType::TransportHelicopter));
    for (transport, island, target) in [
        (second, far_island, at(5, 0)),
        (enemy, near_island, near),
        (first, far_island, far),
        (third, near_island, near),
    ] {
        let squad = world.squad(transport, TransportPhase::Transit);
        squad.target_island = Some(island);
        squad.target = Some(target);
    }
    let units = collect_unit_snapshots(&world.scene.board);
    let (operations, _) = collect_existing_operations(
        &world.scene.islands,
        &world.scene.manager,
        &units,
        PlayerId(1),
    );
    assert_eq!(operations.len(), 2);
    assert_eq!(operations[0].island_id, near_island);
    assert_eq!(operations[0].transport_entities, vec![third]);
    assert_eq!(operations[1].island_id, far_island);
    assert_eq!(operations[1].target_position, far);
    assert_eq!(operations[1].transport_entities, vec![first, second]);
}

#[test]
fn snapshots_keep_all_that_a_unit_has() {
    let mut world = World::new(sea_map(1, 1, &[(at(0, 0), Terrain::City)]));
    let mut truck = stats(UnitType::SupplyTruck);
    truck.max_fuel = 71;
    truck.max_ammo1 = 5;
    truck.max_ammo2 = 6;
    truck.min_range = 2;
    truck.max_range = 3;
    truck.can_supply = true;
    world.unit(1, at(0, 0), truck);
    let units = collect_unit_snapshots(&world.scene.board);
    let copy = units[0].duplicate();
    for stats in [&units[0].stats, &copy.stats] {
        assert_eq!(stats.max_fuel, 71);
        assert_eq!(stats.max_ammo1, 5);
        assert_eq!(stats.max_ammo2, 6);
        assert_eq!(stats.min_range, 2);
        assert_eq!(stats.max_range, 3);
        assert!(stats.can_supply);
    }
}
