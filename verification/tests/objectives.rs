use island_command::grid::{GridPosition, Terrain};
use island_command::islands::IslandId;
use island_command::master_data::{LandscapeRow, MasterDataRegistry};
use island_command::objectives::{InfantryCount, Objective, PriorityScore};

fn landscape(terrain: Terrain, income: u32) -> LandscapeRow {
    LandscapeRow {
        terrain,
        income,
        defense_bonus: 0,
        production_facility: false,
        produces: vec![],
    }
}

fn registry() -> MasterDataRegistry {
    MasterDataRegistry {
        landscapes: vec![
            landscape(Terrain::Capital, 4000),
            landscape(Terrain::Factory, 1000),
            landscape(Terrain::City, 1000),
        ],
        movement: vec![],
        units: vec![],
        ranks: vec![],
    }
}

fn three_properties() -> Vec<(GridPosition, Terrain)> {
    vec![
        (GridPosition { x: 0, y: 0 }, Terrain::Capital),
        (GridPosition { x: 1, y: 0 }, Terrain::Factory),
        (GridPosition { x: 2, y: 0 }, Terrain::City),
    ]
}

#[test]
fn test_objective_evaluate() {
    let objective = Objective::evaluate(IslandId(1), &three_properties(), 3, 0, &registry());
    assert_eq!(objective.target_island, IslandId(1));
    // 6000 / (1 + 3)
    assert_eq!(objective.priority_score, PriorityScore(1500));
    assert_eq!(objective.needed_infantry, InfantryCount(3));
}

#[test]
fn test_objective_evaluate_with_threat_penalty() {
    let objective = Objective::evaluate(IslandId(1), &three_properties(), 3, 1, &registry());
    assert_eq!(objective.target_island, IslandId(1));
    // 6000 / (1 + 3 + 20)
    assert_eq!(objective.priority_score, PriorityScore(250));
    assert_eq!(objective.needed_infantry, InfantryCount(3));
}

#[test]
fn test_objective_evaluate_empty() {
    let properties = vec![];
    let objective = Objective::evaluate(IslandId(2), &properties, 10, 0, &registry());
    assert_eq!(objective.target_island, IslandId(2));
    assert_eq!(objective.priority_score, PriorityScore(0));
    assert_eq!(objective.needed_infantry, InfantryCount(1));
}

#[test]
fn objective_score_rounds_towards_zero_and_saturates() {
    let city = vec![(GridPosition { x: 0, y: 0 }, Terrain::City)];
    let rate = |distance: i32, enemies: u32| {
        Objective::evaluate(IslandId(0), &city, distance, enemies, &registry()).priority_score
    };
    assert_eq!(rate(10, 0), PriorityScore(90));
    assert_eq!(rate(-4, 0), PriorityScore(-333));
    assert_eq!(rate(-1, 0), PriorityScore(i32::MAX));
    let plains = vec![(GridPosition { x: 0, y: 0 }, Terrain::Plains)];
    let nothing = Objective::evaluate(IslandId(0), &plains, -1, 0, &registry());
    assert_eq!(nothing.priority_score, PriorityScore(0));
    assert_eq!(nothing.needed_infantry, InfantryCount(1));
}

#[test]
fn distance_and_threat_never_raise_the_score() {
    let score = |distance: i32, enemies: u32| {
        Objective::evaluate(
            IslandId(1),
            &three_properties(),
            distance,
            enemies,
            &registry(),
        )
        .priority_score
        .0
    };
    assert_eq!(score(0, 0), 6000);
    assert_eq!(score(1, 0), 3000);
    assert_eq!(score(9, 0), 600);
    assert_eq!(score(9, 1), 200);
    assert_eq!(score(9, 2), 120);
}
