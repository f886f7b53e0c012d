use island_command::board::{Board, BoardRow, CargoCapacity, Property};
use island_command::campaign_production::{IslandCampaignShortfall, ProduceUnitCommand};
use island_command::counter::{
    counter_efficiency_components, engagement_factor, exchange_with, CounterEfficiencyComponents,
};
use island_command::crossing::{crosses_water, nearest_target};
use island_command::damage::DamageChart;
use island_command::emergency::{
    decide_emergency, select_emergency_anti_air_candidate_with_existing, turns_to_afford,
    AirResponse, DelayedResponse, EmergencyAntiAirCandidate, EmergencyStep,
};
use island_command::entity::Entity;
use island_command::grid::{GameMap, GridPosition, GridTopology, Terrain};
use island_command::island_campaign::IslandCampaignDecision;
use island_command::islands::IslandId;
use island_command::master_data::{LandscapeRow, MasterDataRegistry, MovementRow, RankRow};
use island_command::production::{
    consume_transport_demand_after_production, continue_after_campaign, decide_production,
    execution_budget, CampaignProgress, EmergencyAntiAirReservation, GenericProduction,
    ProductionDecision, ProductionPlan, ProductionTurn,
};
use island_command::production_choice::{
    compare_production_candidates, production_options, saving_options, score_options,
    select_best_production_candidate, OptionWeight, ProductionCandidate,
};
use island_command::production_set::best_production_set;
use island_command::production_survey::{
    capable_units, collect_capabilities, collect_occupied, collect_side, find_capital, production_occupants,
    survey_sites, SiteSurvey, UnitSide,
};
use island_command::travel::TravelTable;
use island_command::unit_score::{
    calculate_unit_score_at, CompositionGap, GamePhase, ProductionDemands, ProductionStrategy,
    ScoreScene, ScoreTerms,
};
use island_command::units::{Ammo, Fuel, Health, MovementType, PlayerId, UnitStats, UnitType};
use std::cmp::Ordering;

const ORDER: [UnitType; 9] = [
    UnitType::Infantry,
    UnitType::Mech,
    UnitType::Recon,
    UnitType::Tank,
    UnitType::MdTank,
    UnitType::Rockets,
    UnitType::AntiAir,
    UnitType::Missiles,
    UnitType::TransportHelicopter,
];

fn at(x: usize, y: usize) -> GridPosition {
    GridPosition { x, y }
}

fn mock(unit_type: UnitType) -> UnitStats {
    UnitStats {
        unit_type,
        cost: 1_000,
        max_movement: 3,
        movement_type: MovementType::Tank,
        max_fuel: 99,
        max_ammo1: 9,
        max_ammo2: 9,
        min_range: 1,
        max_range: 1,
        can_capture: false,
        can_supply: false,
        max_cargo: 0,
        loadable_unit_types: vec![],
    }
}

fn registry() -> MasterDataRegistry {
    let row = |movement_type, terrain, cost| MovementRow {
        movement_type,
        terrain,
        cost,
    };
    let site = |terrain, income, produces: Vec<UnitType>| LandscapeRow {
        terrain,
        income,
        defense_bonus: 0,
        production_facility: !produces.is_empty(),
        produces,
    };
    MasterDataRegistry {
        landscapes: vec![
            site(Terrain::Factory, 1_000, ORDER[0..8].to_vec()),
            site(
                Terrain::Airport,
                1_000,
                vec![UnitType::TransportHelicopter],
            ),
            site(Terrain::Capital, 3_000, vec![]),
            site(Terrain::City, 1_000, vec![]),
        ],
        movement: vec![
            row(MovementType::Infantry, Terrain::Plains, 1),
            row(MovementType::Tank, Terrain::Plains, 1),
            row(MovementType::Air, Terrain::Plains, 1),
            row(MovementType::Ship, Terrain::Sea, 1),
            row(MovementType::Ship, Terrain::Plains, 99),
        ],
        units: vec![],
        ranks: ORDER
            .iter()
            .enumerate()
            .map(|(i, t)| RankRow {
                unit_type: *t,
                rank: i as u32,
            })
            .collect(),
    }
}

fn strategy(phase: GamePhase) -> ProductionStrategy {
    ProductionStrategy {
        phase,
        priority_targets: vec![],
        unowned_properties: vec![],
        offensive_targets: vec![],
        existing_transport_count: 0,
        transport_candidate_count: 0,
    }
}

const NO_DEMANDS: ProductionDemands = ProductionDemands {
    capture: 0,
    light_transport: 0,
    heavy_transport: 0,
};

const NO_TERMS: ScoreTerms = ScoreTerms {
    transport_utility: 0,
    invasion_value: 0,
    counter: 0,
    air_defense: 0,
    composition: CompositionGap::Balanced,
};

const NO_WEIGHT: OptionWeight = OptionWeight {
    sea_slots: (0, 0),
    terms: NO_TERMS,
};

struct Scoring {
    map: GameMap,
    chart: DamageChart,
    strategy: ProductionStrategy,
    demands: ProductionDemands,
    enemies: Vec<(GridPosition, UnitStats)>,
    empty_transports: Vec<(GridPosition, UnitStats)>,
    terms: ScoreTerms,
    sea_slots: (u32, u32),
    produced_at: Terrain,
}

impl Scoring {
    fn new(width: usize, height: usize, terrain: Terrain) -> Scoring {
        Scoring {
            map: GameMap::new(width, height, terrain, GridTopology::Square),
            chart: DamageChart::new(),
            strategy: strategy(GamePhase::Expansion),
            demands: NO_DEMANDS,
            enemies: vec![],
            empty_transports: vec![],
            terms: NO_TERMS,
            sea_slots: (0, 0),
            produced_at: Terrain::Factory,
        }
    }

    fn score(&self, stats: &UnitStats, position: GridPosition, is_v3: bool) -> u32 {
        calculate_unit_score_at(
            &ScoreScene {
                map: &self.map,
                registry: &registry(),
                chart: &self.chart,
                strategy: &self.strategy,
                demands: self.demands,
                enemies: &self.enemies,
                empty_transports: &self.empty_transports,
            },
            stats.unit_type,
            stats,
            position,
            self.produced_at,
            self.sea_slots,
            &self.terms,
            is_v3,
        )
    }
}

fn selection_candidate(
    score: u32,
    position: GridPosition,
    unit_type: UnitType,
    cost: u32,
) -> ProductionCandidate {
    ProductionCandidate {
        score,
        facility_position: position,
        unit_type,
        cost,
        max_cargo: 0,
        can_capture: unit_type == UnitType::Infantry,
    }
}

#[test]
fn equal_score_selection_is_insertion_order_independent() {
    let candidates = vec![
        selection_candidate(100, at(1, 0), UnitType::Infantry, 1_000),
        selection_candidate(100, at(0, 0), UnitType::Mech, 3_000),
        selection_candidate(100, at(0, 0), UnitType::Infantry, 1_000),
    ];
    let mut reversed = candidates.clone();
    reversed.reverse();

    let selected = select_best_production_candidate(&registry(), &candidates).unwrap();
    let reversed_selected = select_best_production_candidate(&registry(), &reversed).unwrap();

    assert_eq!(selected.facility_position, at(0, 0));
    assert_eq!(selected.unit_type, UnitType::Infantry);
    assert_eq!(
        (
            reversed_selected.facility_position,
            reversed_selected.unit_type
        ),
        (selected.facility_position, selected.unit_type)
    );
}

#[test]
fn equal_score_selection_uses_cost_after_type_rank() {
    let candidates = vec![
        selection_candidate(100, at(0, 0), UnitType::Infantry, 1_001),
        selection_candidate(100, at(0, 0), UnitType::Infantry, 1_000),
    ];

    assert_eq!(
        select_best_production_candidate(&registry(), &candidates)
            .unwrap()
            .cost,
        1_000
    );
}

#[test]
fn worthless_candidates_are_not_chosen() {
    let worthless = vec![selection_candidate(0, at(0, 0), UnitType::Infantry, 1_000)];
    assert_eq!(
        select_best_production_candidate(&registry(), &worthless),
        None
    );
    let better = selection_candidate(5, at(9, 9), UnitType::Missiles, 9_000);
    let lesser = selection_candidate(4, at(0, 0), UnitType::Infantry, 1_000);
    assert_eq!(
        compare_production_candidates(&registry(), &better, &lesser),
        Ordering::Less
    );
    assert_eq!(
        compare_production_candidates(&registry(), &lesser, &better),
        Ordering::Greater
    );
    assert_eq!(
        compare_production_candidates(&registry(), &lesser, &lesser),
        Ordering::Equal
    );
}

fn no_air_threat_score(unit_type: UnitType, cost: u32, is_v3: bool) -> u32 {
    let mut scoring = Scoring::new(6, 1, Terrain::Plains);
    scoring
        .chart
        .insert_damage(UnitType::AntiAir, UnitType::Bomber, 80);
    scoring
        .chart
        .insert_damage(UnitType::Tank, UnitType::Tank, 55);
    let mut stats = mock(unit_type);
    stats.cost = cost;
    stats.max_movement = 6;
    let mut enemy_tank = mock(UnitType::Tank);
    enemy_tank.cost = 7_000;
    enemy_tank.max_movement = 6;
    scoring.enemies = vec![(at(5, 0), enemy_tank)];
    scoring.score(&stats, at(0, 0), is_v3)
}

#[test]
fn issue75_v3_rejects_anti_air_without_any_enemy_air() {
    let anti_air = no_air_threat_score(UnitType::AntiAir, 5_500, true);
    let tank = no_air_threat_score(UnitType::Tank, 7_000, true);

    assert_eq!(anti_air, 1);
    assert!(tank > anti_air);
}

#[test]
fn issue75_v2_keeps_legacy_anti_air_score_without_enemy_air() {
    let anti_air = no_air_threat_score(UnitType::AntiAir, 5_500, false);
    assert!(anti_air > 1);
}

#[test]
fn issue75_air_shortage_increases_effective_candidate_score() {
    let mut scoring = Scoring::new(6, 1, Terrain::Plains);
    scoring
        .chart
        .insert_damage(UnitType::AntiAir, UnitType::Bomber, 80);
    let mut anti_air = mock(UnitType::AntiAir);
    anti_air.cost = 8_000;
    anti_air.max_movement = 6;

    scoring.terms.air_defense = 6_000;
    let score_with_shortage = scoring.score(&anti_air, at(0, 0), true);
    scoring.terms.air_defense = 0;
    let score_after_coverage = scoring.score(&anti_air, at(0, 0), true);

    assert!(score_with_shortage > score_after_coverage);
}

fn carrier(unit_type: UnitType, movement_type: MovementType, max_cargo: u32) -> UnitStats {
    let mut stats = mock(unit_type);
    stats.movement_type = movement_type;
    stats.max_movement = 6;
    stats.max_cargo = max_cargo;
    stats.loadable_unit_types = vec![UnitType::Infantry];
    stats
}

fn with_and_without_candidates(scoring: &mut Scoring, stats: &UnitStats, is_v3: bool) -> (u32, u32) {
    scoring.terms.transport_utility = 20_000;
    scoring.strategy.transport_candidate_count = 1;
    let with = scoring.score(stats, at(0, 0), is_v3);
    scoring.strategy.transport_candidate_count = 0;
    (with, scoring.score(stats, at(0, 0), is_v3))
}

#[test]
fn targetless_candidate_does_not_inflate_recon_score() {
    let mut scoring = Scoring::new(5, 1, Terrain::Plains);
    scoring.demands.light_transport = 1;
    let recon = carrier(UnitType::Recon, MovementType::Tank, 1);

    let (with, without) = with_and_without_candidates(&mut scoring, &recon, true);
    assert_eq!(with, without);
}

#[test]
fn v3_offshore_transport_utility_excludes_ground_carriers() {
    let mut scoring = Scoring::new(5, 1, Terrain::Sea);
    scoring.demands.light_transport = 1;
    scoring.demands.heavy_transport = 1;
    scoring.strategy.offensive_targets = vec![at(4, 0)];

    scoring.sea_slots = (2, 0);
    let helicopter = carrier(UnitType::TransportHelicopter, MovementType::Air, 2);
    let (with, without) = with_and_without_candidates(&mut scoring, &helicopter, true);
    assert!(with > without);

    scoring.sea_slots = (2, 2);
    let lander = carrier(UnitType::Lander, MovementType::Ship, 2);
    let (with, without) = with_and_without_candidates(&mut scoring, &lander, true);
    assert!(with > without);

    scoring.sea_slots = (0, 0);
    let recon = carrier(UnitType::Recon, MovementType::Tank, 1);
    let (with, without) = with_and_without_candidates(&mut scoring, &recon, true);
    assert_eq!(with, without);
}

#[test]
fn v1_recon_keeps_ground_transport_utility() {
    let mut scoring = Scoring::new(5, 1, Terrain::Plains);
    scoring.demands.light_transport = 1;
    scoring.strategy.priority_targets = vec![at(4, 0)];
    let recon = carrier(UnitType::Recon, MovementType::Tank, 1);

    let (with, without) = with_and_without_candidates(&mut scoring, &recon, false);
    assert!(with > without);
}

#[test]
fn v3_transport_demand_consumption_uses_offshore_types_only() {
    let both = ProductionDemands {
        capture: 0,
        light_transport: 2,
        heavy_transport: 1,
    };

    let mut recon = both;
    consume_transport_demand_after_production(&mut recon, UnitType::Recon, 1, (0, 0), true);
    assert_eq!(recon.light_transport, 2);
    assert_eq!(recon.heavy_transport, 1);

    let mut helicopter = both;
    consume_transport_demand_after_production(
        &mut helicopter,
        UnitType::TransportHelicopter,
        2,
        (2, 0),
        true,
    );
    assert_eq!(helicopter.light_transport, 0);
    assert_eq!(helicopter.heavy_transport, 1);

    let mut heavy_lander = both;
    consume_transport_demand_after_production(
        &mut heavy_lander,
        UnitType::Lander,
        2,
        (2, 2),
        true,
    );
    assert_eq!(heavy_lander.light_transport, 2);
    assert_eq!(heavy_lander.heavy_transport, 0);

    let mut light_lander = ProductionDemands {
        heavy_transport: 0,
        ..both
    };
    consume_transport_demand_after_production(
        &mut light_lander,
        UnitType::Lander,
        2,
        (2, 2),
        true,
    );
    assert_eq!(light_lander.light_transport, 0);
}

#[test]
fn v1_ground_carrier_keeps_legacy_transport_demand_consumption() {
    let mut demands = ProductionDemands {
        capture: 0,
        light_transport: 2,
        heavy_transport: 0,
    };

    consume_transport_demand_after_production(&mut demands, UnitType::Recon, 1, (0, 0), false);

    assert_eq!(demands.light_transport, 1);
}

#[test]
fn test_ai_production_forward_eta() {
    let factory_pos = at(1, 0);
    let enemy_pos = at(15, 0);
    let mut scoring = Scoring::new(16, 1, Terrain::Plains);
    scoring.strategy = strategy(GamePhase::Contested);
    scoring.strategy.priority_targets = vec![enemy_pos];
    scoring.enemies = vec![(enemy_pos, mock(UnitType::Infantry))];
    let tank = mock(UnitType::Tank);

    let score_without_transport = scoring.score(&tank, factory_pos, false);
    let mut transport = carrier(UnitType::TransportHelicopter, MovementType::Air, 1);
    transport.max_movement = 9;
    transport.loadable_unit_types = vec![UnitType::Infantry, UnitType::Tank];
    scoring.empty_transports = vec![(factory_pos, transport)];
    let score_with_transport = scoring.score(&tank, factory_pos, false);

    assert!(score_with_transport > score_without_transport);
}

#[test]
fn scores_in_figures() {
    let mut scoring = Scoring::new(16, 1, Terrain::Plains);
    scoring.strategy = strategy(GamePhase::Contested);
    let mut tank = mock(UnitType::Tank);
    tank.cost = 7_000;
    // Without targets: the flat hundred, the tank in battle and a tenth of the price.
    assert_eq!(scoring.score(&tank, at(1, 0), false), 100 + 1_000 + 700);

    // Fourteen tiles at three a turn are five turns at forty points each.
    scoring.strategy.priority_targets = vec![at(15, 0)];
    assert_eq!(
        scoring.score(&tank, at(1, 0), false),
        2_000 - 5 * 40 + 1_000 + 700
    );

    // Composition.
    scoring.terms.composition = CompositionGap::Excess;
    assert_eq!(
        scoring.score(&tank, at(1, 0), false),
        2_000 - 5 * 40 + 1_000 + 700 - 1_000
    );
    scoring.terms.composition = CompositionGap::Short(1_200);
    assert_eq!(
        scoring.score(&tank, at(1, 0), false),
        2_000 - 5 * 40 + 1_000 + 700 + 1_200
    );

    // The counter points of the third rule set are tripled and bounded.
    scoring.terms.composition = CompositionGap::Balanced;
    scoring.terms.counter = 10_000;
    assert_eq!(
        scoring.score(&tank, at(1, 0), true),
        2_000 - 5 * 40 + 8_000 + 1_000 + 700
    );
    scoring.terms.counter = -100;
    assert_eq!(
        scoring.score(&tank, at(1, 0), true),
        2_000 - 5 * 40 - 300 + 1_000 + 700
    );
}

#[test]
fn capturing_units_count_by_demand() {
    let mut scoring = Scoring::new(5, 1, Terrain::Plains);
    scoring.strategy.priority_targets = vec![at(2, 0)];
    scoring.strategy.unowned_properties = vec![at(2, 0)];
    let mut infantry = mock(UnitType::Infantry);
    infantry.can_capture = true;
    infantry.movement_type = MovementType::Infantry;
    scoring.demands.capture = 2;
    assert_eq!(
        scoring.score(&infantry, at(0, 0), false),
        2_000 - 40 + 2 * 2_500 + 2_000
    );
    scoring.demands.capture = 0;
    assert_eq!(
        scoring.score(&infantry, at(0, 0), false),
        2_000 - 40 - 1_000
    );
    scoring.strategy.phase = GamePhase::Contested;
    assert_eq!(scoring.score(&infantry, at(0, 0), false), 1);
}

#[test]
fn the_second_transport_counts_half() {
    let mut scoring = Scoring::new(5, 1, Terrain::Plains);
    scoring.strategy.priority_targets = vec![at(4, 0)];
    scoring.strategy.transport_candidate_count = 1;
    scoring.demands.light_transport = 1;
    scoring.terms.transport_utility = 101;
    let helicopter = carrier(UnitType::TransportHelicopter, MovementType::Air, 2);
    let first = 2_000 - 40 + 101 + 1_500;
    assert_eq!(scoring.score(&helicopter, at(0, 0), false), first + 500);
    scoring.strategy.existing_transport_count = 1;
    assert_eq!(scoring.score(&helicopter, at(0, 0), false), first / 2 + 500);
    scoring.strategy.existing_transport_count = 2;
    assert_eq!(scoring.score(&helicopter, at(0, 0), false), 500);
}

#[test]
fn halving_rounds_as_single_precision_does() {
    for score in [
        0u32,
        1,
        3,
        0x00ff_ffff,
        0x0100_0001,
        0x0100_0003,
        0x0200_0002,
        0x0200_0006,
        0x7fff_ffff,
        0x7fff_ffbf,
        0xffff_ffff,
        0xffff_ff7f,
        0xffff_fe80,
    ] {
        let mut scoring = Scoring::new(1, 1, Terrain::Plains);
        scoring.strategy = strategy(GamePhase::Contested);
        scoring.strategy.priority_targets = vec![at(0, 0)];
        scoring.strategy.transport_candidate_count = 1;
        scoring.strategy.existing_transport_count = 1;
        let mut stats = carrier(UnitType::TransportHelicopter, MovementType::Air, 1);
        stats.max_movement = 1;
        // Two thousand for being there, three thousand off for want of demand.
        scoring.terms.transport_utility = score.saturating_add(1_000);
        let wanted = (2_000u32.saturating_add(scoring.terms.transport_utility)).saturating_sub(3_000);
        let half = (wanted as f32 * 0.5) as u32;
        let expected = if half as i32 >= 1 { half } else { 1 };
        assert_eq!(scoring.score(&stats, at(0, 0), false), expected);
    }
}

#[test]
fn ships_prefer_ports_and_coasts() {
    let mut scoring = Scoring::new(6, 1, Terrain::Sea);
    scoring.map.set_terrain(5, 0, Terrain::Plains).unwrap();
    scoring.strategy = strategy(GamePhase::Contested);
    scoring.strategy.priority_targets = vec![at(5, 0)];
    scoring.produced_at = Terrain::Port;
    let mut ship = mock(UnitType::Battleship);
    ship.movement_type = MovementType::Ship;
    ship.max_movement = 1;
    ship.cost = 0;
    // Five tiles, two turns off for the coast, three thousand for the port.
    assert_eq!(scoring.score(&ship, at(0, 0), false), 2_000 - 3 * 40 + 3_000);
    ship.max_range = 5;
    assert_eq!(
        scoring.score(&ship, at(0, 0), false),
        2_000 - 3 * 40 + 5_000
    );
    // Inland: a ship that must come close counts a quarter and twenty tiles more.
    scoring.map = GameMap::new(6, 1, Terrain::Plains, GridTopology::Square);
    ship.max_range = 1;
    assert_eq!(scoring.score(&ship, at(0, 0), false), 1 + 3_000);
    ship.max_movement = 5;
    assert_eq!(
        scoring.score(&ship, at(0, 0), false),
        500 - 5 * 40 + 3_000
    );
}

#[test]
fn interception_pays_by_value_and_time() {
    let mut scoring = Scoring::new(10, 1, Terrain::Plains);
    scoring.map.set_terrain(5, 0, Terrain::Factory).unwrap();
    scoring.strategy = strategy(GamePhase::Contested);
    scoring.strategy.priority_targets = vec![at(5, 0)];
    scoring.strategy.unowned_properties = vec![at(5, 0)];
    let mut enemy = mock(UnitType::Infantry);
    enemy.can_capture = true;
    scoring.enemies = vec![(at(6, 0), enemy)];
    scoring
        .chart
        .insert_damage(UnitType::Recon, UnitType::Infantry, 40);
    let mut recon = mock(UnitType::Recon);
    recon.cost = 0;
    // Nothing near to take: the base is at its lowest, two turns to the factory.
    assert_eq!(
        scoring.score(&recon, at(0, 0), false),
        (2_000 - 99 * 40i32).max(1) as u32 + 3_000 * 40 / 20
    );
}

fn wants_air_defense() -> Vec<(UnitType, UnitStats)> {
    let mut missiles = mock(UnitType::Missiles);
    missiles.cost = 12_000;
    let mut anti_air = mock(UnitType::AntiAir);
    anti_air.cost = 8_000;
    let mut rockets = mock(UnitType::Rockets);
    rockets.cost = 15_000;
    vec![
        (UnitType::Rockets, rockets),
        (UnitType::Missiles, missiles),
        (UnitType::AntiAir, anti_air),
    ]
}

fn response(unit_type: UnitType, justified: bool, coverage: i32, protected: i32) -> AirResponse {
    AirResponse {
        facility_position: at(0, 0),
        unit_type,
        justified,
        coverage,
        protected_asset_value: protected,
        meets_deadline: true,
        name_rank: 0,
    }
}

#[test]
fn issue75_zero_coverage_prefers_effective_anti_air_candidate() {
    let candidate = select_emergency_anti_air_candidate_with_existing(
        &vec![(at(0, 0), Terrain::Factory)],
        &wants_air_defense(),
        &vec![
            response(UnitType::Rockets, false, 0, 0),
            response(UnitType::AntiAir, true, 24_000, 16_000),
        ],
        &registry(),
        20_000,
    )
    .unwrap();

    assert_eq!(candidate.unit_type, UnitType::AntiAir);
    assert!(candidate.coverage > 0);
}

#[test]
fn issue75_unaffordable_emergency_candidate_uses_cheapest_effective_unit() {
    let candidate = select_emergency_anti_air_candidate_with_existing(
        &vec![(at(0, 0), Terrain::Factory)],
        &wants_air_defense(),
        &vec![
            response(UnitType::Missiles, true, 30_000, 20_000),
            response(UnitType::AntiAir, true, 15_000, 10_000),
        ],
        &registry(),
        1_000,
    )
    .unwrap();

    assert_eq!(candidate.unit_type, UnitType::AntiAir);
    assert_eq!(candidate.cost, 8_000);
}

#[test]
fn emergency_choice_weighs_deadline_protection_coverage_and_price() {
    let facilities = vec![(at(0, 0), Terrain::Factory)];
    let choose = |responses: Vec<AirResponse>, funds: u32| {
        select_emergency_anti_air_candidate_with_existing(
            &facilities,
            &wants_air_defense(),
            &responses,
            &registry(),
            funds,
        )
        .map(|c| c.unit_type)
    };
    let missiles = response(UnitType::Missiles, true, 10, 20);
    let anti_air = response(UnitType::AntiAir, true, 10, 10);
    assert_eq!(
        choose(vec![missiles, anti_air], 20_000),
        Some(UnitType::Missiles)
    );
    assert_eq!(
        choose(vec![missiles, anti_air], 9_000),
        Some(UnitType::AntiAir)
    );
    let mut late = missiles;
    late.meets_deadline = false;
    assert_eq!(
        choose(vec![late, anti_air], 20_000),
        Some(UnitType::AntiAir)
    );
    let mut equal = missiles;
    equal.protected_asset_value = 10;
    assert_eq!(
        choose(vec![equal, anti_air], 20_000),
        Some(UnitType::AntiAir)
    );
    equal.coverage = 11;
    assert_eq!(
        choose(vec![equal, anti_air], 20_000),
        Some(UnitType::Missiles)
    );
    equal.coverage = -1;
    assert_eq!(
        choose(vec![equal, anti_air], 20_000),
        Some(UnitType::AntiAir)
    );
    assert_eq!(choose(vec![], 20_000), None);
}

#[test]
fn saving_lasts_as_long_as_the_price_takes() {
    assert_eq!(turns_to_afford(8_000, 1_000, 3_000), Some(3));
    assert_eq!(turns_to_afford(8_000, 1_000, 0), None);
    let candidate = EmergencyAntiAirCandidate {
        facility_position: at(0, 0),
        unit_type: UnitType::AntiAir,
        cost: 8_000,
        coverage: 1,
        protected_asset_value: 1,
        meets_deadline: true,
        name_rank: 0,
    };
    let delayed = vec![DelayedResponse {
        facility_position: at(0, 0),
        unit_type: UnitType::AntiAir,
        delay: 4,
        justified: true,
    }];
    assert_eq!(
        decide_emergency(Some(candidate), &delayed, 1_000, 3_000),
        EmergencyStep::Save(candidate)
    );
    assert_eq!(
        decide_emergency(Some(candidate), &delayed, 1_000, 2_000),
        EmergencyStep::Pass
    );
    assert_eq!(
        decide_emergency(Some(candidate), &delayed, 8_000, 0),
        EmergencyStep::Build(candidate)
    );
    assert_eq!(
        decide_emergency(None, &delayed, 8_000, 0),
        EmergencyStep::Pass
    );
}

struct Turn {
    is_v3: bool,
    phase: GamePhase,
    air_emergency: bool,
    funds: u32,
    unit_count: usize,
    sites: SiteSurvey,
    types: Vec<(UnitType, UnitStats)>,
    shortfalls: Vec<IslandCampaignShortfall>,
    responses: Vec<AirResponse>,
    delayed: Vec<DelayedResponse>,
    savings: Vec<ProductionCandidate>,
    campaign: CampaignProgress,
}

impl Turn {
    fn new(funds: u32) -> Turn {
        Turn {
            is_v3: true,
            phase: GamePhase::Contested,
            air_emergency: false,
            funds,
            unit_count: 10,
            sites: SiteSurvey {
                facilities: vec![(at(0, 0), Terrain::Factory)],
                income_per_turn: 1_000,
                owned_airport_count: 0,
            },
            types: wants_air_defense(),
            shortfalls: vec![],
            responses: vec![],
            delayed: vec![],
            savings: vec![],
            campaign: CampaignProgress::Unplanned,
        }
    }

    fn decide(&self, plan: &mut ProductionPlan) -> ProductionDecision {
        decide_production(
            &ProductionTurn {
                player_id: PlayerId(1),
                is_v3: self.is_v3,
                phase: self.phase,
                air_emergency: self.air_emergency,
                current_funds: self.funds,
                unit_count: self.unit_count,
                sites: &self.sites,
                types: &self.types,
                enemies: &vec![],
                shortfalls: &self.shortfalls,
                registry: &registry(),
                chart: &DamageChart::new(),
                travel: &TravelTable {
                    routes: vec![],
                    links: vec![],
                },
                responses: &self.responses,
                delayed: &self.delayed,
                savings: &self.savings,
                campaign: self.campaign,
            },
            plan,
        )
    }
}

fn orders(decision: ProductionDecision) -> Vec<ProduceUnitCommand> {
    match decision {
        ProductionDecision::Orders(commands) => commands,
        other => panic!("expected orders, got {:?}", other),
    }
}

fn generic_funds(decision: ProductionDecision) -> u32 {
    match decision {
        ProductionDecision::BuildGeneric { funds } => funds,
        other => panic!("expected generic building, got {:?}", other),
    }
}

#[test]
fn issue75_unaffordable_immediate_threat_does_not_create_stale_reservation() {
    let mut turn = Turn::new(0);
    turn.phase = GamePhase::Defense;
    turn.air_emergency = true;
    turn.responses = vec![response(UnitType::AntiAir, true, 15_000, 10_000)];
    let mut plan = ProductionPlan::default();
    plan.reserves = 3_000;
    plan.reservations = vec![UnitType::Infantry];

    assert_eq!(generic_funds(turn.decide(&mut plan)), 0);
    assert_eq!(plan.emergency_anti_air_reservation, None);
    assert_eq!(plan.reserves, 0);
    assert_eq!(plan.reservations, vec![UnitType::Infantry]);

    turn.funds = 8_000;
    let affordable_commands = orders(turn.decide(&mut plan));
    assert_eq!(affordable_commands.len(), 1);
    assert_eq!(affordable_commands[0].unit_type, UnitType::AntiAir);
    assert_eq!(plan.emergency_anti_air_reservation, None);

    turn.responses = vec![response(UnitType::AntiAir, false, 0, 0)];
    assert_eq!(generic_funds(turn.decide(&mut plan)), 8_000);
}

#[test]
fn issue75_stale_emergency_reserve_is_cleared_after_threat_disappears() {
    let turn = Turn::new(100_000);
    let mut plan = ProductionPlan::default();
    plan.reserves = 3_000;
    plan.reservations = vec![UnitType::Infantry];
    plan.emergency_anti_air_reservation = Some(EmergencyAntiAirReservation {
        unit_type: UnitType::AntiAir,
        cost: 8_000,
    });

    turn.decide(&mut plan);

    assert_eq!(plan.emergency_anti_air_reservation, None);
    assert_eq!(plan.reservations, vec![UnitType::Infantry]);
}

#[test]
fn an_emergency_that_can_wait_is_saved_for() {
    let mut turn = Turn::new(7_000);
    turn.air_emergency = true;
    turn.responses = vec![response(UnitType::AntiAir, true, 1, 1)];
    turn.delayed = vec![DelayedResponse {
        facility_position: at(0, 0),
        unit_type: UnitType::AntiAir,
        delay: 2,
        justified: true,
    }];
    let mut plan = ProductionPlan::default();
    plan.reserves = 3_000;
    assert!(orders(turn.decide(&mut plan)).is_empty());
    assert_eq!(
        plan.emergency_anti_air_reservation,
        Some(EmergencyAntiAirReservation {
            unit_type: UnitType::AntiAir,
            cost: 8_000,
        })
    );
    assert_eq!(plan.reserves, 3_000);

    turn.is_v3 = false;
    generic_funds(turn.decide(&mut plan));
    assert_eq!(plan.emergency_anti_air_reservation, None);
}

#[test]
fn test_ai_production_saving_for_mdtank() {
    let mut turn = Turn::new(10_000);
    let mut md_tank = mock(UnitType::MdTank);
    md_tank.cost = 16_000;
    let mut infantry = mock(UnitType::Infantry);
    infantry.can_capture = true;
    let mut tank = mock(UnitType::Tank);
    tank.cost = 7_000;
    turn.types = vec![
        (UnitType::Infantry, infantry),
        (UnitType::Tank, tank),
        (UnitType::MdTank, md_tank),
    ];
    turn.savings = vec![
        selection_candidate(1_500, at(1, 0), UnitType::Infantry, 1_000),
        selection_candidate(9_000, at(1, 0), UnitType::MdTank, 16_000),
    ];
    let mut plan = ProductionPlan::default();
    plan.reserves = 16_000;

    let funds = generic_funds(turn.decide(&mut plan));
    assert!(plan.reserves >= 12_000);
    assert_eq!(funds, 1_000);
    let options = production_options(
        &registry(),
        &turn.sites.facilities,
        &turn.types,
        &vec![],
        funds,
    );
    assert_eq!(options, vec![(0, 0)]);
    for (_, t) in options {
        let stats = &turn.types[t].1;
        assert!(stats.cost <= 3_000 || stats.max_cargo > 0);
    }
}

#[test]
fn savings_rise_and_are_dropped_once_paid() {
    let mut turn = Turn::new(10_000);
    turn.savings = vec![selection_candidate(10, at(0, 0), UnitType::MdTank, 16_000)];
    let mut plan = ProductionPlan::default();
    assert_eq!(generic_funds(turn.decide(&mut plan)), 1_000);
    assert_eq!(plan.reserves, 16_000);
    assert_eq!(plan.reservations, vec![UnitType::MdTank]);

    turn.decide(&mut plan);
    assert_eq!(plan.reservations, vec![UnitType::MdTank]);

    turn.funds = 20_000;
    assert_eq!(generic_funds(turn.decide(&mut plan)), 20_000);
    assert_eq!(plan.reserves, 0);
}

#[test]
fn budgets_in_figures() {
    let contested = GamePhase::Contested;
    assert_eq!(execution_budget(contested, 20_000, 16_000, 10), 11_000);
    assert_eq!(execution_budget(contested, 9_500, 16_000, 10), 1_000);
    assert_eq!(execution_budget(contested, 400, 16_000, 10), 400);
    assert_eq!(execution_budget(contested, 9_500, 16_000, 4), 9_500);
    assert_eq!(execution_budget(contested, 9_500, 0, 10), 9_500);
    assert_eq!(
        execution_budget(GamePhase::Defense, 9_500, 16_000, 10),
        9_500
    );
}

#[test]
fn test_ai_production_counter_selection() {
    let mut turn = Turn::new(25_000);
    turn.air_emergency = true;
    turn.unit_count = 1;
    turn.responses = vec![
        response(UnitType::Rockets, false, 0, 0),
        response(UnitType::AntiAir, true, 15_000, 9_000),
        response(UnitType::Missiles, true, 15_000, 9_000),
    ];
    let produced: Vec<UnitType> = orders(turn.decide(&mut ProductionPlan::default()))
        .iter()
        .map(|command| command.unit_type)
        .collect();
    assert!(produced.contains(&UnitType::AntiAir) || produced.contains(&UnitType::Missiles));
}

fn capture_shortfall() -> IslandCampaignShortfall {
    IslandCampaignShortfall {
        island_id: IslandId(0),
        decision: IslandCampaignDecision::Secure,
        target_position: at(0, 0),
        light_transport_slots: 0,
        heavy_transport_slots: 0,
        capture_units: 1,
        ground_combat_units: 0,
        combat_budget: 0,
        reserved_budget: 1_000,
        priority_rank: 0,
        priority_enemy_types: vec![],
    }
}

#[test]
fn campaigns_are_planned_once_and_then_followed() {
    let mut turn = Turn::new(5_000);
    let mut infantry = mock(UnitType::Infantry);
    infantry.can_capture = true;
    turn.types = vec![(UnitType::Infantry, infantry)];
    turn.shortfalls = vec![capture_shortfall()];
    let mut plan = ProductionPlan::default();
    plan.reserves = 9_000;
    let (commands, generic_budget) = match turn.decide(&mut plan) {
        ProductionDecision::PlanCampaign {
            commands,
            generic_budget,
        } => (commands, generic_budget),
        other => panic!("expected a campaign plan, got {:?}", other),
    };
    assert_eq!(plan.reserves, 0);
    assert_eq!(commands.len(), 1);
    assert_eq!(generic_budget, 4_000);

    assert_eq!(
        orders(continue_after_campaign(
            Some(commands[0]),
            false,
            generic_budget
        )),
        commands
    );
    assert!(orders(continue_after_campaign(None, true, generic_budget)).is_empty());
    assert_eq!(
        generic_funds(continue_after_campaign(None, false, generic_budget)),
        4_000
    );

    turn.campaign = CampaignProgress::Planned {
        next: Some(commands[0]),
        blocks_generic: true,
        generic_budget: Some(4_000),
    };
    assert_eq!(orders(turn.decide(&mut plan)), commands);
    turn.campaign = CampaignProgress::Planned {
        next: None,
        blocks_generic: false,
        generic_budget: Some(4_000),
    };
    assert_eq!(generic_funds(turn.decide(&mut plan)), 4_000);
    turn.is_v3 = false;
    assert_eq!(generic_funds(turn.decide(&mut plan)), 5_000);
}

#[test]
fn without_a_free_facility_nothing_is_built_or_planned() {
    let mut turn = Turn::new(5_000);
    turn.sites.facilities = vec![];
    let mut plan = ProductionPlan::default();
    plan.reserves = 9_000;
    assert!(orders(turn.decide(&mut plan)).is_empty());
    assert_eq!(plan.reserves, 9_000);
}

#[test]
fn test_ai_production_infantry_priority_at_start() {
    let mut scoring = Scoring::new(15, 15, Terrain::Plains);
    scoring.strategy.priority_targets = vec![at(3, 0), at(0, 3)];
    scoring.strategy.unowned_properties = vec![at(3, 0), at(0, 3)];
    let mut enemy = mock(UnitType::Infantry);
    enemy.can_capture = true;
    scoring.enemies = vec![(at(10, 10), enemy)];
    let mut infantry = mock(UnitType::Infantry);
    infantry.can_capture = true;
    infantry.movement_type = MovementType::Infantry;
    let mut rockets = mock(UnitType::Rockets);
    rockets.cost = 9_000;
    rockets.min_range = 2;
    rockets.max_range = 3;
    let types = vec![
        (UnitType::Infantry, infantry),
        (UnitType::Rockets, rockets),
    ];
    let facilities = vec![(at(1, 0), Terrain::Factory)];
    let demands = ProductionDemands {
        capture: 2,
        light_transport: 0,
        heavy_transport: 0,
    };

    let mut state = GenericProduction::new(PlayerId(1), false, false, demands, 10_000);
    loop {
        let options = production_options(
            &registry(),
            &facilities,
            &types,
            &state.used_facilities,
            state.remaining_funds,
        );
        let weights = vec![NO_WEIGHT; options.len()];
        let candidates = score_options(
            &ScoreScene {
                map: &scoring.map,
                registry: &registry(),
                chart: &scoring.chart,
                strategy: &scoring.strategy,
                demands: state.demands,
                enemies: &scoring.enemies,
                empty_transports: &scoring.empty_transports,
            },
            &facilities,
            &types,
            &options,
            &weights,
            false,
        );
        if state
            .order_best(&registry(), &candidates, &weights)
            .is_empty()
        {
            break;
        }
    }

    let produced: Vec<UnitType> = state.commands.iter().map(|c| c.unit_type).collect();
    assert!(produced.contains(&UnitType::Infantry) || produced.contains(&UnitType::Mech));
    assert!(!produced.contains(&UnitType::Rockets));
    assert_eq!(state.remaining_funds, 9_000);
    assert_eq!(state.demands.capture, 1);
    assert_eq!(state.used_facilities, vec![at(1, 0)]);
}

#[test]
fn campaigns_leave_nothing_lacking() {
    let demands = ProductionDemands {
        capture: 2,
        light_transport: 3,
        heavy_transport: 4,
    };
    let state = GenericProduction::new(PlayerId(1), true, true, demands, 10);
    assert_eq!(state.demands, NO_DEMANDS);
    let legacy = GenericProduction::new(PlayerId(1), false, true, demands, 10);
    assert_eq!(legacy.demands, demands);
}

#[test]
fn savings_are_looked_at_from_the_first_facility() {
    let facilities = vec![
        (at(4, 1), Terrain::Factory),
        (at(9, 0), Terrain::Factory),
        (at(0, 0), Terrain::Airport),
    ];
    let types = vec![
        (UnitType::Tank, mock(UnitType::Tank)),
        (UnitType::Lander, mock(UnitType::Lander)),
        (
            UnitType::TransportHelicopter,
            mock(UnitType::TransportHelicopter),
        ),
    ];
    assert_eq!(
        saving_options(&registry(), &facilities, &types),
        vec![(1, 0), (2, 2)]
    );
}

#[test]
fn engagement_follows_range_and_reach() {
    let mut gun = mock(UnitType::HeavySpGun);
    gun.max_range = 5;
    gun.max_movement = 4;
    let mut rockets = mock(UnitType::Rockets);
    rockets.max_range = 3;
    rockets.max_movement = 5;
    assert_eq!(engagement_factor(&gun, &rockets), 10);
    assert_eq!(engagement_factor(&rockets, &gun), 5);
    rockets.max_movement = 7;
    assert_eq!(engagement_factor(&gun, &rockets), 8);
    assert_eq!(engagement_factor(&gun, &gun), 10);
    let mut chart = DamageChart::new();
    chart.insert_damage(UnitType::HeavySpGun, UnitType::Rockets, 70);
    chart.insert_secondary_damage(UnitType::Rockets, UnitType::HeavySpGun, 30);
    let exchange = exchange_with(&gun, &rockets, &chart);
    assert_eq!(
        (
            exchange.damage_out,
            exchange.damage_in,
            exchange.engagement_out,
            exchange.engagement_in
        ),
        (70, 30, 8, 5)
    );
}

#[test]
fn exchanges_are_summed_by_side() {
    let mut bomber = mock(UnitType::Bomber);
    bomber.movement_type = MovementType::Air;
    let enemies = vec![
        (at(0, 0), bomber.clone()),
        (at(1, 0), mock(UnitType::Tank)),
        (at(2, 0), bomber),
    ];
    assert_eq!(
        counter_efficiency_components(&enemies, &vec![5, -7, 8]),
        CounterEfficiencyComponents {
            non_air_net: -7,
            air_net: 13,
            non_air_count: 1,
            air_count: 2,
        }
    );
}

#[test]
fn ways_over_water_are_seen() {
    let mut map = GameMap::new(9, 1, Terrain::Plains, GridTopology::Square);
    assert!(!crosses_water(&map, at(0, 0), at(8, 0)));
    map.set_terrain(4, 0, Terrain::Shoal).unwrap();
    assert!(crosses_water(&map, at(0, 0), at(8, 0)));
    assert!(crosses_water(&map, at(8, 0), at(0, 0)));
    assert!(!crosses_water(&map, at(0, 0), at(3, 0)));
    assert_eq!(
        nearest_target(&vec![at(8, 0), at(3, 0), at(0, 3)], at(0, 0)),
        Some(at(3, 0))
    );
    assert_eq!(nearest_target(&vec![], at(0, 0)), None);
}

#[test]
fn the_board_is_surveyed() {
    let mut rows = vec![];
    let mut building = |index: u32, p: GridPosition, terrain, owner: Option<u32>| {
        let mut row = BoardRow::new(Entity::from_raw(index));
        row.position = Some(p);
        row.property = Some(Property::new(terrain, owner.map(PlayerId), 100));
        row
    };
    rows.push(building(1, at(0, 0), Terrain::Capital, Some(1)));
    rows.push(building(2, at(1, 0), Terrain::Factory, Some(1)));
    rows.push(building(3, at(2, 0), Terrain::Factory, Some(1)));
    rows.push(building(4, at(9, 0), Terrain::Airport, Some(1)));
    rows.push(building(5, at(3, 0), Terrain::Airport, Some(1)));
    rows.push(building(6, at(4, 0), Terrain::Factory, Some(2)));
    let mut unit = |index: u32, p: GridPosition, player: u32, unit_type| {
        let mut row = BoardRow::new(Entity::from_raw(index));
        row.position = Some(p);
        row.faction = Some(PlayerId(player));
        row.stats = Some(mock(unit_type));
        row
    };
    let mut tank = unit(7, at(2, 0), 1, UnitType::Tank);
    tank.health = Some(Health {
        current: 60,
        max: 100,
    });
    tank.ammo = Some(Ammo { ammo1: 2, ammo2: 3 });
    tank.fuel = Some(Fuel {
        current: 7,
        max: 99,
    });
    tank.action_completed = Some(false);
    rows.push(tank);
    let mut helicopter = unit(8, at(5, 5), 1, UnitType::TransportHelicopter);
    helicopter.stats.as_mut().unwrap().max_cargo = 2;
    helicopter.cargo = Some(CargoCapacity {
        max: 2,
        loaded: vec![],
    });
    rows.push(helicopter);
    let mut carried = unit(9, at(5, 5), 1, UnitType::Infantry);
    carried.transporting = Some(Entity::from_raw(8));
    rows.push(carried);
    rows.push(unit(10, at(6, 6), 2, UnitType::Rockets));
    let board = Board { rows };

    assert_eq!(find_capital(&board, PlayerId(1)), Some(at(0, 0)));
    assert_eq!(find_capital(&board, PlayerId(2)), None);
    let occupied = collect_occupied(&board);
    assert_eq!(occupied, vec![at(2, 0), at(5, 5), at(6, 6)]);
    let in_range = vec![at(0, 0), at(1, 0), at(2, 0), at(3, 0), at(4, 0)];
    let survey = survey_sites(&board, &registry(), PlayerId(1), &occupied, &in_range);
    assert_eq!(
        survey.facilities,
        vec![(at(1, 0), Terrain::Factory), (at(3, 0), Terrain::Airport)]
    );
    assert_eq!(survey.income_per_turn, 3_000 + 4 * 1_000);
    assert_eq!(survey.owned_airport_count, 1);

    let own = collect_side(&board, PlayerId(1), UnitSide::Own);
    assert_eq!(own.len(), 2);
    let enemies = collect_side(&board, PlayerId(1), UnitSide::Enemy);
    assert_eq!(enemies.len(), 1);
    assert_eq!(enemies[0].1.unit_type, UnitType::Rockets);
    let empty = collect_side(&board, PlayerId(1), UnitSide::EmptyTransport);
    assert_eq!(empty.len(), 1);
    assert_eq!(empty[0].0, at(5, 5));

    let capabilities = collect_capabilities(&board, PlayerId(1));
    assert_eq!(capabilities.len(), 2);
    assert_eq!(capabilities[0].hp, 60);
    assert_eq!(capabilities[0].ammo1, 2);
    assert_eq!(capabilities[0].fuel, 7);
    assert_eq!(capabilities[0].action_delay, 0);
    assert_eq!(capabilities[1].hp, 100);
    assert_eq!(capabilities[1].fuel, 99);
    assert_eq!(capabilities[1].action_delay, 1);

    let mut chart = DamageChart::new();
    chart.insert_damage(UnitType::Tank, UnitType::Rockets, 60);
    chart.insert_secondary_damage(UnitType::TransportHelicopter, UnitType::Recon, 5);
    let targets = vec![UnitType::Missiles, UnitType::Rockets];
    assert!(chart.harms_some(UnitType::Tank, &targets));
    assert!(!chart.harms_some(UnitType::TransportHelicopter, &targets));
    assert!(chart.harms_some(UnitType::TransportHelicopter, &vec![UnitType::Recon]));
    let capable = |targets: &Vec<UnitType>| capable_units(&chart, &capabilities, targets);
    assert_eq!(capable(&targets), vec![capabilities[0]]);
    assert_eq!(capable(&vec![UnitType::Recon]), vec![capabilities[1]]);
    assert!(capable(&vec![]).is_empty());

    let occupants = production_occupants(&board);
    assert_eq!(occupants.len(), 3);
    assert_eq!(occupants[1].free_slots, 2);
    assert!(occupants[1].is_transport);
    assert!(!occupants[0].is_transport);
}

fn two_thousand_to_spend() -> Vec<ProductionCandidate> {
    vec![
        selection_candidate(10, at(0, 0), UnitType::Tank, 2_000),
        selection_candidate(9, at(0, 0), UnitType::Infantry, 1_000),
        selection_candidate(9, at(1, 0), UnitType::Infantry, 1_000),
    ]
}

#[test]
fn two_cheap_units_may_be_worth_more_than_one() {
    let candidates = two_thousand_to_spend();
    assert_eq!(
        best_production_set(&registry(), &candidates, 2_000),
        vec![1, 2]
    );
    assert_eq!(best_production_set(&registry(), &candidates, 1_999), vec![1]);
    assert_eq!(
        best_production_set(&registry(), &candidates, 3_000),
        vec![0, 2]
    );
    assert_eq!(best_production_set(&registry(), &candidates, 999), vec![]);
    assert_eq!(best_production_set(&registry(), &vec![], 999), vec![]);
}

#[test]
fn the_set_is_the_best_of_all_sets() {
    let mut candidates = vec![];
    for (facility, options) in [
        [(60, 700), (45, 300), (20, 200), (44, 300)],
        [(80, 900), (50, 400), (1, 100), (79, 800)],
        [(70, 800), (30, 200), (55, 500), (0, 0)],
    ]
    .iter()
    .enumerate()
    {
        for (score, cost) in options {
            candidates.push(selection_candidate(
                *score,
                at(facility, 0),
                UnitType::Tank,
                *cost,
            ));
        }
    }
    for budget in (0..3_000).step_by(100) {
        let mut most = 0;
        for a in 0..5 {
            for b in 0..5 {
                for c in 0..5 {
                    let picks = [(a, 0), (b, 4), (c, 8)];
                    let taken: Vec<&ProductionCandidate> = picks
                        .iter()
                        .filter(|(i, _)| *i < 4)
                        .map(|(i, from)| &candidates[from + i])
                        .collect();
                    if taken.iter().map(|c| c.cost).sum::<u32>() <= budget {
                        most = most.max(taken.iter().map(|c| c.score).sum::<u32>());
                    }
                }
            }
        }
        let set = best_production_set(&registry(), &candidates, budget);
        let cost: u32 = set.iter().map(|i| candidates[*i].cost).sum();
        let score: u32 = set.iter().map(|i| candidates[*i].score).sum();
        assert!(cost <= budget);
        assert_eq!(score, most);
        for (n, i) in set.iter().enumerate() {
            assert!(candidates[*i].score > 0);
            for j in &set[n + 1..] {
                assert_ne!(
                    candidates[*i].facility_position,
                    candidates[*j].facility_position
                );
            }
        }
    }
}

#[test]
fn of_equal_sets_the_first_is_built() {
    let candidates = vec![
        selection_candidate(5, at(1, 0), UnitType::Tank, 1_000),
        selection_candidate(5, at(0, 0), UnitType::Tank, 1_000),
        selection_candidate(5, at(0, 0), UnitType::Infantry, 1_000),
    ];
    assert_eq!(
        best_production_set(&registry(), &candidates, 1_000).len(),
        1
    );
    let first = best_production_set(&registry(), &candidates, 1_000)[0];
    assert_eq!(candidates[first].facility_position, at(0, 0));
    let alone = select_best_production_candidate(&registry(), &candidates).unwrap();
    assert_eq!(candidates[first], alone);
}

#[test]
fn orders_add_up_to_the_money() {
    let candidates = two_thousand_to_spend();
    let weights = vec![NO_WEIGHT; 3];
    let mut state = GenericProduction::new(PlayerId(1), false, false, NO_DEMANDS, 2_500);
    let ordered = state.order_best(&registry(), &candidates, &weights);
    assert_eq!(ordered, vec![candidates[1], candidates[2]]);
    assert_eq!(state.used_facilities, vec![at(0, 0), at(1, 0)]);
    assert_eq!(state.costs, vec![1_000, 1_000]);
    assert_eq!(state.remaining_funds, 500);
    assert_eq!(state.funds, 2_500);
    assert_eq!(state.commands.len(), 2);
    assert_eq!(state.commands[1].target_x, 1);
    let left = vec![candidates[0]];
    assert!(state
        .order_best(&registry(), &left, &vec![NO_WEIGHT])
        .is_empty());
    assert_eq!(state.commands.len(), 2);
}

#[test]
fn what_is_weighed_anew_is_ordered_one_at_a_time() {
    let candidates = two_thousand_to_spend();
    let weights = vec![NO_WEIGHT; 3];
    let mut state = GenericProduction::new(PlayerId(1), true, false, NO_DEMANDS, 2_000);
    assert_eq!(
        state.order_best(&registry(), &candidates, &weights),
        vec![candidates[1]]
    );
    let rest = vec![candidates[2]];
    assert_eq!(
        state.order_best(&registry(), &rest, &vec![NO_WEIGHT]),
        vec![candidates[2]]
    );
    assert_eq!(state.remaining_funds, 0);
    assert_eq!(state.costs, vec![1_000, 1_000]);
}
