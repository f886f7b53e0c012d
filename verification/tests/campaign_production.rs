use island_command::campaign_production::{
    consume_campaign_candidate, plan_campaign_shortfall_production,
    plan_campaign_shortfall_production_with_damage, plan_campaign_with_expansion_denial_reserve,
    remaining_campaign_requirements, select_expansion_denial_airport, CampaignProductionOutcome,
    CampaignProductionRequirement, IslandCampaignShortfall, OpenNeeds,
};
use island_command::damage::DamageChart;
use island_command::grid::{GridPosition, Terrain};
use island_command::island_campaign::IslandCampaignDecision;
use island_command::islands::IslandId;
use island_command::master_data::{LandscapeRow, MasterDataRegistry, RankRow};
use island_command::travel::{TerrainLink, TravelTable};
use island_command::units::{MovementType, PlayerId, UnitStats, UnitType};

const ORDER: [UnitType; 12] = [
    UnitType::Infantry,
    UnitType::Mech,
    UnitType::Recon,
    UnitType::SupplyTruck,
    UnitType::Tank,
    UnitType::TankZ,
    UnitType::Artillery,
    UnitType::AntiAir,
    UnitType::Fighter,
    UnitType::Bcopters,
    UnitType::TransportHelicopter,
    UnitType::Lander,
];

const WAYS: [MovementType; 6] = [
    MovementType::Infantry,
    MovementType::Mech,
    MovementType::Tank,
    MovementType::Wheels,
    MovementType::Air,
    MovementType::Ship,
];

fn at(x: usize, y: usize) -> GridPosition {
    GridPosition { x, y }
}

fn stats(unit_type: UnitType) -> UnitStats {
    let (cost, movement_type, can_capture, max_cargo) = match unit_type {
        UnitType::Infantry => (1_000, MovementType::Infantry, true, 0),
        UnitType::Mech => (3_000, MovementType::Mech, true, 0),
        UnitType::Recon => (4_000, MovementType::Wheels, false, 1),
        UnitType::SupplyTruck => (5_000, MovementType::Tank, false, 0),
        UnitType::Tank => (7_000, MovementType::Tank, false, 0),
        UnitType::TankZ => (24_000, MovementType::Tank, false, 0),
        UnitType::Artillery => (6_000, MovementType::Tank, false, 0),
        UnitType::AntiAir => (5_500, MovementType::Tank, false, 0),
        UnitType::Fighter => (20_000, MovementType::Air, false, 0),
        UnitType::Bcopters => (7_500, MovementType::Air, false, 0),
        UnitType::TransportHelicopter => (4_000, MovementType::Air, false, 2),
        UnitType::Lander => (16_500, MovementType::Ship, false, 2),
        _ => unreachable!(),
    };
    UnitStats {
        unit_type,
        cost,
        max_movement: 5,
        movement_type,
        max_fuel: 99,
        max_ammo1: 9,
        max_ammo2: 9,
        min_range: 1,
        max_range: 1,
        can_capture,
        can_supply: unit_type == UnitType::SupplyTruck,
        max_cargo,
        loadable_unit_types: vec![],
    }
}

fn master_data() -> MasterDataRegistry {
    let site = |terrain, produces| LandscapeRow {
        terrain,
        income: 1_000,
        defense_bonus: 0,
        production_facility: true,
        produces,
    };
    MasterDataRegistry {
        landscapes: vec![
            site(
                Terrain::Factory,
                vec![
                    UnitType::Infantry,
                    UnitType::Mech,
                    UnitType::Recon,
                    UnitType::SupplyTruck,
                    UnitType::Tank,
                    UnitType::TankZ,
                    UnitType::Artillery,
                    UnitType::AntiAir,
                ],
            ),
            site(
                Terrain::Airport,
                vec![
                    UnitType::Fighter,
                    UnitType::Bcopters,
                    UnitType::TransportHelicopter,
                ],
            ),
            site(Terrain::Port, vec![UnitType::Lander]),
        ],
        movement: vec![],
        units: ORDER.iter().map(|t| stats(*t)).collect(),
        ranks: ORDER
            .iter()
            .enumerate()
            .map(|(i, t)| RankRow {
                unit_type: *t,
                rank: i as u32,
            })
            .collect(),
    }
}

fn campaign_test_types() -> Vec<(UnitType, UnitStats)> {
    ORDER.iter().map(|t| (*t, stats(*t))).collect()
}

/// Everything on land is joined.
fn joined(
    facilities: &[(GridPosition, Terrain)],
    shortfalls: &[IslandCampaignShortfall],
) -> TravelTable {
    let mut links = vec![];
    for (start, _) in facilities {
        for row in shortfalls {
            for movement_type in WAYS {
                if movement_type != MovementType::Ship {
                    links.push(TerrainLink {
                        movement_type,
                        start: *start,
                        target: row.target_position,
                    });
                }
            }
        }
    }
    TravelTable {
        routes: vec![],
        links,
    }
}

fn shortfall(
    island: usize,
    decision: IslandCampaignDecision,
    reserved_budget: u32,
    priority_rank: u32,
) -> IslandCampaignShortfall {
    IslandCampaignShortfall {
        island_id: IslandId(island),
        decision,
        target_position: at(0, 0),
        light_transport_slots: 0,
        heavy_transport_slots: 0,
        capture_units: 0,
        ground_combat_units: 0,
        combat_budget: 0,
        reserved_budget,
        priority_rank,
        priority_enemy_types: vec![],
    }
}

fn plan(
    player: u32,
    rows: &Vec<IslandCampaignShortfall>,
    facilities: &Vec<(GridPosition, Terrain)>,
    types: &Vec<(UnitType, UnitStats)>,
    funds: u32,
) -> CampaignProductionOutcome {
    plan_campaign_shortfall_production(
        PlayerId(player),
        rows,
        facilities,
        types,
        &joined(facilities, rows),
        &master_data(),
        funds,
    )
}

fn count(outcome: &CampaignProductionOutcome, unit_type: UnitType) -> usize {
    outcome
        .commands
        .iter()
        .filter(|command| command.unit_type == unit_type)
        .count()
}

#[test]
fn campaign_production_rejects_zero_capacity_transport() {
    let mut helicopter = stats(UnitType::TransportHelicopter);
    helicopter.max_cargo = 0;
    let mut row = shortfall(0, IslandCampaignDecision::Expand, helicopter.cost, 0);
    row.light_transport_slots = 1;

    let outcome = plan(
        1,
        &vec![row],
        &vec![(at(0, 0), Terrain::Airport)],
        &vec![(UnitType::TransportHelicopter, helicopter)],
        u32::MAX,
    );

    assert!(outcome.commands.is_empty());
    assert!(!outcome.completed_all_rows);
}

#[test]
fn campaign_production_rejects_zero_cost_combat_unit() {
    let mut infantry = stats(UnitType::Infantry);
    infantry.cost = 0;
    let mut row = shortfall(0, IslandCampaignDecision::Defend, 1, 0);
    row.combat_budget = 1;

    let outcome = plan(
        1,
        &vec![row],
        &vec![(at(0, 0), Terrain::Factory)],
        &vec![(UnitType::Infantry, infantry)],
        1,
    );

    assert!(outcome.commands.is_empty());
    assert!(!outcome.completed_all_rows);
}

#[test]
fn campaign_combat_does_not_buy_a_tank_for_a_sea_separated_target() {
    let tank = stats(UnitType::TankZ);
    let fighter = stats(UnitType::Fighter);
    let mut row = shortfall(1, IslandCampaignDecision::Assault, tank.cost, 0);
    row.target_position = at(3, 0);
    row.combat_budget = tank.cost;
    let facilities = vec![(at(0, 0), Terrain::Factory), (at(1, 0), Terrain::Airport)];
    let travel = TravelTable {
        routes: vec![],
        links: facilities
            .iter()
            .map(|(start, _)| TerrainLink {
                movement_type: MovementType::Air,
                start: *start,
                target: at(3, 0),
            })
            .collect(),
    };

    let outcome = plan_campaign_shortfall_production(
        PlayerId(1),
        &vec![row],
        &facilities,
        &vec![(UnitType::TankZ, tank), (UnitType::Fighter, fighter)],
        &travel,
        &master_data(),
        u32::MAX,
    );

    assert_eq!(outcome.commands.len(), 1);
    assert_eq!(outcome.commands[0].unit_type, UnitType::Fighter);
}

fn helicopter_chart() -> DamageChart {
    let mut chart = DamageChart::new();
    chart.insert_damage(UnitType::Bcopters, UnitType::Infantry, 65);
    chart
}

fn two_airports() -> Vec<(GridPosition, Terrain)> {
    vec![(at(1, 0), Terrain::Airport), (at(2, 0), Terrain::Airport)]
}

#[test]
fn expansion_denial_reserves_one_of_two_airports_when_surplus_can_fund_air_power() {
    let types = vec![(UnitType::Bcopters, stats(UnitType::Bcopters))];
    let enemies = vec![stats(UnitType::Infantry)];
    let select = |owned: u32, funds: u32| {
        select_expansion_denial_airport(
            &two_airports(),
            owned,
            &types,
            &enemies,
            &helicopter_chart(),
            &master_data(),
            funds,
        )
    };

    assert_eq!(select(2, 8_000), Some(at(2, 0)));
    assert_eq!(select(2, 7_000), None);
    assert_eq!(select(1, 8_000), None);
}

#[test]
fn campaign_replans_one_transport_airport_for_expansion_denial() {
    let mut row = shortfall(1, IslandCampaignDecision::Expand, 8_000, 0);
    row.target_position = at(8, 0);
    row.light_transport_slots = 4;
    let rows = vec![row];

    let outcome = plan_campaign_with_expansion_denial_reserve(
        PlayerId(1),
        &rows,
        &two_airports(),
        2,
        &vec![
            (
                UnitType::TransportHelicopter,
                stats(UnitType::TransportHelicopter),
            ),
            (UnitType::Bcopters, stats(UnitType::Bcopters)),
        ],
        &vec![stats(UnitType::Infantry)],
        &helicopter_chart(),
        &joined(&two_airports(), &rows),
        &master_data(),
        20_000,
    );

    assert_eq!(outcome.commands.len(), 1);
    assert_eq!(outcome.commands[0].unit_type, UnitType::TransportHelicopter);
    assert_eq!(outcome.generic_funds, 16_000);
}

#[test]
fn expansion_denial_can_use_current_cash_before_future_transport_reservations() {
    let mut row = shortfall(1, IslandCampaignDecision::Expand, 16_000, 0);
    row.target_position = at(8, 0);
    row.light_transport_slots = 8;
    let rows = vec![row];

    let outcome = plan_campaign_with_expansion_denial_reserve(
        PlayerId(1),
        &rows,
        &two_airports(),
        2,
        &vec![
            (
                UnitType::TransportHelicopter,
                stats(UnitType::TransportHelicopter),
            ),
            (UnitType::Bcopters, stats(UnitType::Bcopters)),
        ],
        &vec![stats(UnitType::Infantry)],
        &helicopter_chart(),
        &joined(&two_airports(), &rows),
        &master_data(),
        20_000,
    );

    assert_eq!(outcome.commands.len(), 1);
    assert_eq!(outcome.commands[0].unit_type, UnitType::TransportHelicopter);
    assert_eq!(outcome.remaining_funds, 16_000);
    assert_eq!(outcome.generic_funds, 16_000);
}

#[test]
fn campaign_production_services_higher_priority_row_before_lower_rows() {
    let available_types = campaign_test_types();
    let mut defend = shortfall(0, IslandCampaignDecision::Defend, 7_000, 0);
    defend.combat_budget = 7_000;
    let mut expand = shortfall(1, IslandCampaignDecision::Expand, 6_000, 2);
    expand.light_transport_slots = 2;
    expand.capture_units = 2;
    let mut assault = shortfall(2, IslandCampaignDecision::Assault, 32_700, 4);
    assault.light_transport_slots = 2;
    assault.heavy_transport_slots = 2;
    assault.capture_units = 2;
    assault.combat_budget = 10_200;
    let facilities = vec![(at(0, 0), Terrain::Factory), (at(1, 0), Terrain::Airport)];

    let outcome = plan(
        1,
        &vec![defend, expand, assault],
        &facilities,
        &available_types,
        7_000,
    );

    assert_eq!(outcome.commands.len(), 1);
    let produced_stats = available_types
        .iter()
        .find(|(unit_type, _)| *unit_type == outcome.commands[0].unit_type)
        .map(|(_, stats)| stats)
        .unwrap();
    assert!(produced_stats.cost <= 7_000);
    assert!(!produced_stats.can_capture);
    assert!(!matches!(
        outcome.commands[0].unit_type,
        UnitType::Lander | UnitType::TransportHelicopter | UnitType::SupplyTruck
    ));
    assert!(!outcome.completed_all_rows);
}

#[test]
fn campaign_production_uses_non_competing_airport_without_spending_secure_reserve() {
    let mut secure = shortfall(5, IslandCampaignDecision::Secure, 7_000, 2);
    secure.capture_units = 7;
    let mut expand = shortfall(2, IslandCampaignDecision::Expand, 17_000, 6);
    expand.light_transport_slots = 5;
    expand.capture_units = 5;
    let mut facilities = (0..5)
        .map(|x| (at(x, 0), Terrain::Factory))
        .collect::<Vec<_>>();
    facilities.push((at(5, 0), Terrain::Airport));

    let outcome = plan(
        2,
        &vec![secure, expand],
        &facilities,
        &campaign_test_types(),
        14_000,
    );

    assert_eq!(count(&outcome, UnitType::Infantry), 5);
    assert_eq!(count(&outcome, UnitType::TransportHelicopter), 1);
    assert_eq!(outcome.remaining_funds, 5_000);
    assert_eq!(outcome.generic_funds, 0);
    assert!(!outcome.completed_all_rows);
}

#[test]
fn campaign_production_exposes_only_funds_above_all_remaining_reservations() {
    let mut row = shortfall(0, IslandCampaignDecision::Secure, 1_000, 1);
    row.capture_units = 1;
    let facilities = vec![(at(0, 0), Terrain::Factory), (at(1, 0), Terrain::Factory)];

    let outcome = plan(1, &vec![row], &facilities, &campaign_test_types(), 10_000);

    assert_eq!(outcome.commands.len(), 1);
    assert_eq!(outcome.commands[0].unit_type, UnitType::Infantry);
    assert_eq!(outcome.remaining_funds, 9_000);
    assert_eq!(outcome.generic_funds, 9_000);
    assert!(outcome.completed_all_rows);
}

#[test]
fn campaign_combat_remainder_uses_reserved_real_unit_cost() {
    let facilities = vec![(at(0, 0), Terrain::Factory)];
    let row = |combat_budget, reserved_budget| {
        let mut row = shortfall(0, IslandCampaignDecision::Defend, reserved_budget, 0);
        row.combat_budget = combat_budget;
        row
    };

    let small_remainder = plan(
        1,
        &vec![row(80, 1_000)],
        &facilities,
        &campaign_test_types(),
        1_000,
    );
    let large = plan(
        1,
        &vec![row(30_000, 30_000)],
        &facilities,
        &campaign_test_types(),
        30_000,
    );

    assert_eq!(small_remainder.commands.len(), 1);
    assert!(small_remainder.completed_all_rows);
    assert_eq!(large.commands.len(), 1);
    assert!(!large.completed_all_rows);
}

#[test]
fn campaign_assault_production_requires_lander_and_helicopter() {
    let mut row = shortfall(0, IslandCampaignDecision::Assault, 20_500, 4);
    row.light_transport_slots = 2;
    row.heavy_transport_slots = 2;
    let facilities = vec![(at(0, 0), Terrain::Port), (at(1, 0), Terrain::Airport)];

    let outcome = plan(1, &vec![row], &facilities, &campaign_test_types(), 20_500);

    assert_eq!(outcome.commands.len(), 2);
    assert_eq!(count(&outcome, UnitType::Lander), 1);
    assert_eq!(count(&outcome, UnitType::TransportHelicopter), 1);
    assert!(outcome.completed_all_rows);
}

#[test]
fn campaign_assault_defers_combat_support_after_building_the_first_landing_wave() {
    let mut row = shortfall(0, IslandCampaignDecision::Assault, 20_200, 2);
    row.light_transport_slots = 4;
    row.capture_units = 2;
    row.combat_budget = 10_200;
    let facilities = vec![
        (at(0, 0), Terrain::Airport),
        (at(1, 0), Terrain::Airport),
        (at(2, 0), Terrain::Factory),
        (at(3, 0), Terrain::Factory),
        (at(4, 0), Terrain::Factory),
    ];

    let outcome = plan(1, &vec![row], &facilities, &campaign_test_types(), 20_200);

    assert_eq!(outcome.commands.len(), 4);
    assert_eq!(count(&outcome, UnitType::TransportHelicopter), 2);
    assert_eq!(count(&outcome, UnitType::Infantry), 2);
    assert_eq!(outcome.remaining_funds, 10_200);
    assert!(!outcome.completed_all_rows);
}

#[test]
fn campaign_ground_wave_selects_the_unit_with_more_damage_against_observed_enemy() {
    let tank_cost = stats(UnitType::Tank).cost;
    let mut row = shortfall(0, IslandCampaignDecision::Assault, tank_cost, 0);
    row.target_position = at(4, 0);
    row.ground_combat_units = 1;
    row.combat_budget = tank_cost;
    row.priority_enemy_types = vec![UnitType::Infantry];
    let rows = vec![row];
    let mut damage_chart = DamageChart::new();
    damage_chart.insert_damage(UnitType::Infantry, UnitType::Infantry, 20);
    damage_chart.insert_damage(UnitType::Tank, UnitType::Infantry, 100);
    let facilities = vec![(at(0, 0), Terrain::Factory)];

    let outcome = plan_campaign_shortfall_production_with_damage(
        PlayerId(1),
        &rows,
        &facilities,
        &vec![
            (UnitType::Infantry, stats(UnitType::Infantry)),
            (UnitType::Tank, stats(UnitType::Tank)),
        ],
        &joined(&facilities, &rows),
        &master_data(),
        tank_cost,
        Some(&damage_chart),
    );

    assert_eq!(outcome.commands.len(), 1);
    assert_eq!(outcome.commands[0].unit_type, UnitType::Tank);
    assert!(outcome.completed_all_rows);
}

#[test]
fn campaign_assault_produces_one_affordable_prerequisite_while_saving_for_lander() {
    let mut row = shortfall(0, IslandCampaignDecision::Assault, 32_700, 2);
    row.light_transport_slots = 2;
    row.heavy_transport_slots = 2;
    row.capture_units = 2;
    row.combat_budget = 10_200;
    let facilities = vec![
        (at(0, 0), Terrain::Port),
        (at(1, 0), Terrain::Airport),
        (at(2, 0), Terrain::Factory),
    ];

    let outcome = plan(1, &vec![row], &facilities, &campaign_test_types(), 14_000);

    assert_eq!(outcome.commands.len(), 1);
    assert_eq!(outcome.commands[0].unit_type, UnitType::TransportHelicopter);
    assert_eq!(outcome.remaining_funds, 10_000);
    assert!(!outcome.completed_all_rows);
}

#[test]
fn what_is_lacking_is_listed_by_urgency_and_taken_off() {
    let mut needs = OpenNeeds {
        heavy_transport_slots: 3,
        light_transport_slots: 1,
        capture_units: 2,
        combat_budget: 500,
        reserved_budget: 10_000,
    };
    assert_eq!(
        remaining_campaign_requirements(&needs),
        vec![
            CampaignProductionRequirement::HeavyTransport,
            CampaignProductionRequirement::LightTransport,
            CampaignProductionRequirement::Capture,
            CampaignProductionRequirement::Combat,
        ]
    );
    consume_campaign_candidate(
        &mut needs,
        CampaignProductionRequirement::HeavyTransport,
        6_000,
        2,
    );
    consume_campaign_candidate(
        &mut needs,
        CampaignProductionRequirement::LightTransport,
        3_000,
        2,
    );
    consume_campaign_candidate(&mut needs, CampaignProductionRequirement::Capture, 1_000, 0);
    consume_campaign_candidate(&mut needs, CampaignProductionRequirement::Combat, 2_000, 0);
    assert_eq!(
        needs,
        OpenNeeds {
            heavy_transport_slots: 1,
            light_transport_slots: 0,
            capture_units: 1,
            combat_budget: 0,
            reserved_budget: 0,
        }
    );
}

#[test]
fn every_order_has_a_facility_of_its_own_and_is_paid() {
    let mut secure = shortfall(0, IslandCampaignDecision::Secure, 3_000, 0);
    secure.capture_units = 3;
    let facilities: Vec<(GridPosition, Terrain)> =
        (0..3).map(|x| (at(x, 0), Terrain::Factory)).collect();
    let outcome = plan(1, &vec![secure], &facilities, &campaign_test_types(), 4_000);
    assert_eq!(outcome.commands.len(), 3);
    assert_eq!(outcome.remaining_funds, 1_000);
    let places: Vec<(usize, usize)> = outcome
        .commands
        .iter()
        .map(|command| (command.target_x, command.target_y))
        .collect();
    assert_eq!(places, vec![(0, 0), (1, 0), (2, 0)]);
    assert_eq!(
        outcome.used_facilities,
        vec![at(0, 0), at(1, 0), at(2, 0)]
    );
    assert!(outcome.completed_all_rows);
}

#[test]
fn the_later_row_of_a_chart_counts() {
    let mut chart = DamageChart::new();
    assert_eq!(
        chart.get_base_damage(UnitType::Tank, UnitType::Infantry),
        None
    );
    chart.insert_damage(UnitType::Tank, UnitType::Infantry, 10);
    chart.insert_damage(UnitType::Tank, UnitType::Infantry, 20);
    chart.insert_secondary_damage(UnitType::Tank, UnitType::Infantry, 75);
    assert_eq!(
        chart.get_base_damage(UnitType::Tank, UnitType::Infantry),
        Some(20)
    );
    assert_eq!(
        chart.get_base_damage_secondary(UnitType::Tank, UnitType::Infantry),
        Some(75)
    );
    assert_eq!(chart.best_damage(UnitType::Tank, UnitType::Infantry), 75);
    assert_eq!(chart.best_damage(UnitType::Infantry, UnitType::Tank), 0);
}
