use island_command::entity::Entity;
use island_command::islands::IslandId;
use island_command::operation_assignment::{
    OperationOwner, OperationUnitRole, UnitOperationAssignment, UnitOperationRegistry,
};
use island_command::squad::SquadId;
use island_command::units::PlayerId;

fn campaign(player: u32, island: usize) -> OperationOwner {
    OperationOwner::Campaign {
        player_id: PlayerId(player),
        island_id: IslandId(island),
    }
}

fn assignment(owner: OperationOwner, squad: u32, turn: u32) -> UnitOperationAssignment {
    UnitOperationAssignment {
        owner,
        squad_id: Some(SquadId(squad)),
        role: OperationUnitRole::Member,
        assigned_turn: turn,
    }
}

#[test]
fn assigning_new_owner_removes_old_reverse_membership() {
    let player = PlayerId(1);
    let entity = Entity::from_raw(42);
    let old = OperationOwner::Campaign {
        player_id: player,
        island_id: IslandId(2),
    };
    let new = OperationOwner::Campaign {
        player_id: player,
        island_id: IslandId(3),
    };
    let mut registry = UnitOperationRegistry::default();
    registry.assign(
        entity,
        UnitOperationAssignment {
            owner: old,
            squad_id: Some(SquadId(1)),
            role: OperationUnitRole::Cargo,
            assigned_turn: 1,
        },
    );
    registry.assign(
        entity,
        UnitOperationAssignment {
            owner: new,
            squad_id: Some(SquadId(2)),
            role: OperationUnitRole::Member,
            assigned_turn: 2,
        },
    );

    assert_eq!(registry.assignment(entity).unwrap().owner, new);
    registry.release_operation(old);
    assert_eq!(registry.assignment(entity).unwrap().owner, new);
    registry.release_operation(new);
    assert!(registry.assignment(entity).is_none());
}

#[test]
fn listings_are_by_player() {
    let mut registry = UnitOperationRegistry::new();
    registry.assign(Entity::from_raw(7), assignment(campaign(1, 4), 1, 1));
    registry.assign(Entity::from_raw(3), assignment(campaign(1, 5), 1, 1));
    registry.assign(Entity::from_raw(5), assignment(campaign(2, 4), 1, 1));
    assert_eq!(registry.assigned_count(PlayerId(1)), 2);
    let mut campaigns = registry.campaign_entity_assignments(PlayerId(1));
    campaigns.sort_by_key(|(e, _)| e.to_bits());
    assert_eq!(
        campaigns,
        vec![
            (Entity::from_raw(3), IslandId(5)),
            (Entity::from_raw(7), IslandId(4)),
        ]
    );
    let listed: Vec<Entity> = registry
        .player_assignments(PlayerId(2))
        .into_iter()
        .map(|(e, _)| e)
        .collect();
    assert_eq!(listed, vec![Entity::from_raw(5)]);
    assert_eq!(campaign(2, 4).player_id(), PlayerId(2));
    let owners = registry.campaign_owners(PlayerId(1));
    assert_eq!(owners.len(), 2);
    assert!(owners.contains(&campaign(1, 4)));
    assert!(owners.contains(&campaign(1, 5)));
    assert_eq!(registry.campaign_owners(PlayerId(2)), vec![campaign(2, 4)]);
    registry.release_operation(campaign(2, 4));
    assert_eq!(registry.campaign_owners(PlayerId(2)), vec![]);
}

#[test]
fn only_live_units_stay_assigned() {
    let mut registry = UnitOperationRegistry::new();
    registry.assign(Entity::from_raw(1), assignment(campaign(1, 1), 1, 1));
    registry.assign(Entity::from_raw(2), assignment(campaign(1, 1), 1, 1));
    registry.retain_live_entities(&vec![Entity::from_raw(2)]);
    assert!(registry.assignment(Entity::from_raw(1)).is_none());
    assert!(registry.assignment(Entity::from_raw(2)).is_some());
    registry.release_entity(Entity::from_raw(2));
    assert_eq!(registry.assigned_count(PlayerId(1)), 0);
}

#[test]
fn counters_count() {
    let mut registry = UnitOperationRegistry::new();
    assert_eq!(registry.rejected_conflicts(), 0);
    registry.note_rejected_conflict();
    registry.note_rejected_conflict();
    assert_eq!(registry.rejected_conflicts(), 2);
    registry.note_reconcile_visits(9);
    assert_eq!(registry.last_reconcile_visits(), 9);
}

#[test]
fn entities_keep_the_bits_of_the_world() {
    assert_eq!(
        Entity::from_raw(42).to_bits(),
        bevy_ecs::entity::Entity::from_raw(42).to_bits()
    );
    assert_eq!(Entity::from_raw(42).to_bits(), 0x1_0000_002a);
    assert_eq!(Entity::placeholder().to_bits(), 0x1_ffff_ffff);
    assert_eq!(
        Entity::placeholder().to_bits(),
        bevy_ecs::entity::Entity::PLACEHOLDER.to_bits()
    );
}
