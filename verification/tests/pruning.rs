use island_command::board::{Board, BoardRow};
use island_command::entity::Entity;
use island_command::grid::{GameMap, GridPosition, GridTopology, Terrain};
use island_command::master_data::MasterDataRegistry;
use island_command::pruning::{
    evaluate_attack_exchange, is_overflow_merge_without_refund, is_suicidal_attack_at,
    resolve_exchange, AttackExchange, Combatant, CombatForecast, ForecastRow, Strike,
};
use island_command::units::{Ammo, Health, MovementType, UnitStats, UnitType};

fn at(x: usize, y: usize) -> GridPosition {
    GridPosition { x, y }
}

fn registry() -> MasterDataRegistry {
    MasterDataRegistry {
        landscapes: vec![],
        movement: vec![],
        units: vec![],
        ranks: vec![],
    }
}

fn unit(
    index: u32,
    p: GridPosition,
    unit_type: UnitType,
    cost: u32,
    min_range: u32,
    max: u32,
) -> BoardRow {
    let mut row = BoardRow::new(Entity::from_raw(index));
    row.position = Some(p);
    row.health = Some(Health { current: 100, max });
    row.stats = Some(UnitStats {
        unit_type,
        cost,
        max_movement: 3,
        movement_type: MovementType::Tank,
        max_fuel: 99,
        max_ammo1: 9,
        max_ammo2: 9,
        min_range,
        max_range: min_range,
        can_capture: false,
        can_supply: false,
        max_cargo: 0,
        loadable_unit_types: vec![],
    });
    row
}

fn blow(
    striker: UnitType,
    target: UnitType,
    distance: u32,
    is_counter: bool,
    damage: u32,
    indirect: bool,
) -> ForecastRow {
    ForecastRow {
        striker,
        striker_health: 100,
        ammo: Ammo {
            ammo1: 99,
            ammo2: 99,
        },
        target,
        defense_bonus: 0,
        distance,
        is_counter,
        strike: Strike { damage, indirect },
    }
}

#[test]
fn issue73_overflow_merge_is_pruned() {
    let full = Health {
        current: 100,
        max: 100,
    };
    let damaged = Health {
        current: 34,
        max: 100,
    };

    assert!(is_overflow_merge_without_refund(full.current, full));
    assert!(is_overflow_merge_without_refund(full.current, damaged));
}

#[test]
fn issue73_lossless_merge_is_not_pruned() {
    let source = Health {
        current: 40,
        max: 100,
    };
    let target = Health {
        current: 50,
        max: 100,
    };

    assert!(!is_overflow_merge_without_refund(source.current, target));
}

#[test]
fn test_is_suicidal_attack() {
    let map = GameMap::new(5, 5, Terrain::Plains, GridTopology::Square);
    let rules = CombatForecast {
        rows: vec![
            blow(UnitType::Infantry, UnitType::Tank, 1, false, 1, false),
            blow(UnitType::Infantry, UnitType::Tank, 1, true, 1, false),
            blow(UnitType::Tank, UnitType::Infantry, 1, false, 90, false),
            blow(UnitType::Tank, UnitType::Infantry, 1, true, 90, false),
            blow(UnitType::Tank, UnitType::Artillery, 1, true, 50, false),
        ],
    };
    let board = Board {
        rows: vec![
            unit(1, at(0, 0), UnitType::Infantry, 1000, 1, 100),
            unit(2, at(1, 0), UnitType::Tank, 7000, 1, 100),
            unit(3, at(2, 0), UnitType::Artillery, 6000, 2, 100),
            BoardRow::new(Entity::from_raw(4)),
            unit(5, at(0, 1), UnitType::Infantry, 1000, 1, 0),
        ],
    };
    let suicidal = |attacker: u32, defender: u32, p: GridPosition| {
        is_suicidal_attack_at(
            &board,
            &map,
            &registry(),
            &rules,
            Entity::from_raw(attacker),
            Entity::from_raw(defender),
            p,
        )
    };

    assert!(suicidal(1, 2, at(0, 0)));
    assert!(!suicidal(3, 2, at(2, 0)));
    assert!(!suicidal(2, 1, at(1, 0)));
    assert!(!suicidal(4, 2, at(0, 0)));
    assert!(!suicidal(5, 2, at(0, 1)));
}

#[test]
fn exchange_uses_hex_distance_from_post_move_position() {
    let map = GameMap::new(4, 4, Terrain::Plains, GridTopology::Hex);
    let rules = CombatForecast {
        rows: vec![
            blow(UnitType::Tank, UnitType::Infantry, 1, false, 50, false),
            blow(UnitType::Infantry, UnitType::Tank, 1, true, 0, false),
        ],
    };
    let board = Board {
        rows: vec![
            unit(1, at(0, 0), UnitType::Tank, 7_000, 1, 100),
            unit(2, at(1, 2), UnitType::Infantry, 1_000, 1, 100),
        ],
    };

    let exchange = evaluate_attack_exchange(
        &board,
        &map,
        &registry(),
        &rules,
        Entity::from_raw(1),
        Entity::from_raw(2),
        at(0, 1),
    )
    .expect("(0,1) and (1,2) touch");

    assert!(exchange.expected_damage > 0);
    assert_eq!(exchange.expected_counter_damage, 5);
}

fn side(cost: u32, current: u32) -> Combatant {
    Combatant {
        unit_type: UnitType::Tank,
        cost,
        health: Health { current, max: 100 },
        ammo: Ammo { ammo1: 9, ammo2: 9 },
    }
}

#[test]
fn an_exchange_in_figures() {
    let exchange = resolve_exchange(
        side(7_000, 100),
        side(1_000, 40),
        Some(Strike {
            damage: 50,
            indirect: false,
        }),
        Some(Strike {
            damage: 15,
            indirect: false,
        }),
    );
    assert_eq!(
        exchange,
        AttackExchange {
            expected_damage: 40,
            expected_counter_damage: 20,
            damage_value_dealt: 400,
            counter_value_received: 1_400,
            enemy_loss_permyriad: 4_000,
            friendly_loss_permyriad: 2_000,
        }
    );
    assert!(exchange.loses_more_value_than_it_deals());
    assert!(exchange.is_favorable_matchup());
    assert_eq!(exchange.matchup_margin(), 2_000);
}

#[test]
fn a_blow_from_afar_is_not_answered() {
    let exchange = resolve_exchange(
        side(6_000, 100),
        side(7_000, 100),
        Some(Strike {
            damage: 50,
            indirect: true,
        }),
        Some(Strike {
            damage: 50,
            indirect: false,
        }),
    );
    assert_eq!(exchange.expected_damage, 55);
    assert_eq!(exchange.expected_counter_damage, 0);
    assert_eq!(exchange.friendly_loss_permyriad, 0);
}

#[test]
fn where_the_attacker_stands_makes_no_difference() {
    let map = GameMap::new(6, 1, Terrain::Plains, GridTopology::Square);
    let rules = CombatForecast {
        rows: vec![
            blow(UnitType::Tank, UnitType::Infantry, 1, false, 50, false),
            blow(UnitType::Infantry, UnitType::Tank, 1, true, 10, false),
        ],
    };
    let exchange = |standing: GridPosition, from: GridPosition| {
        let board = Board {
            rows: vec![
                unit(1, standing, UnitType::Tank, 7_000, 1, 100),
                unit(2, at(4, 0), UnitType::Infantry, 1_000, 1, 100),
            ],
        };
        evaluate_attack_exchange(
            &board,
            &map,
            &registry(),
            &rules,
            Entity::from_raw(1),
            Entity::from_raw(2),
            from,
        )
        .unwrap()
    };
    let near = exchange(at(3, 0), at(3, 0));
    assert_eq!(near.expected_damage, 55);
    assert_eq!(near.expected_counter_damage, 15);
    assert_eq!(exchange(at(0, 0), at(3, 0)), near);
    assert_eq!(exchange(at(3, 0), at(0, 0)).expected_damage, 0);
}
