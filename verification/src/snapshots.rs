//! What a campaign sees of the board.
use crate::board::{Board, BoardRow, Property};
use crate::entity::{
    ascending, contains_entity, lemma_contains_sum, lemma_sorted_entities, push_entities,
    sort_entities, sorted_entities, Entity,
};
use crate::grid::GridPosition;
use crate::order::{gather, key_views, lemma_sort_prefix, sort_order, stable_order};
use crate::squad::{all_squad_entities, squad_entities, Squad, SquadManager};
use crate::units::{Health, MovementType, PlayerId, UnitStats, UnitType};
use vstd::prelude::*;

verus! {

/// A building and where it stands.
#[derive(Clone, Copy, Debug, PartialEq, Eq, Structural)]
pub struct PropertySnapshot {
    pub position: GridPosition,
    pub property: Property,
}

/// A unit as a campaign sees it.
#[derive(Clone, Debug)]
pub struct UnitSnapshot {
    pub entity: Entity,
    pub faction: PlayerId,
    pub position: GridPosition,
    pub stats: UnitStats,
    pub health: Health,
    pub fuel: Option<u32>,
    pub transporting: Option<Entity>,
    pub free_cargo_slots: u32,
    pub loaded_cargo_entities: Vec<Entity>,
}

/// The plain contents of a unit snapshot.
pub struct UnitModel {
    pub entity: Entity,
    pub faction: PlayerId,
    pub position: GridPosition,
    pub unit_type: UnitType,
    pub cost: u32,
    pub movement_type: MovementType,
    pub max_movement: u32,
    pub max_fuel: u32,
    pub max_ammo1: u32,
    pub max_ammo2: u32,
    pub min_range: u32,
    pub max_range: u32,
    pub can_capture: bool,
    pub can_supply: bool,
    pub max_cargo: u32,
    pub loadable: Seq<UnitType>,
    pub health: Health,
    pub fuel: Option<u32>,
    pub transporting: Option<Entity>,
    pub free_cargo_slots: u32,
    pub loaded: Seq<Entity>,
}

impl View for UnitSnapshot {
    type V = UnitModel;

    open spec fn view(&self) -> UnitModel {
        UnitModel {
            entity: self.entity,
            faction: self.faction,
            position: self.position,
            unit_type: self.stats.unit_type,
            cost: self.stats.cost,
            movement_type: self.stats.movement_type,
            max_movement: self.stats.max_movement,
            max_fuel: self.stats.max_fuel,
            max_ammo1: self.stats.max_ammo1,
            max_ammo2: self.stats.max_ammo2,
            min_range: self.stats.min_range,
            max_range: self.stats.max_range,
            can_capture: self.stats.can_capture,
            can_supply: self.stats.can_supply,
            max_cargo: self.stats.max_cargo,
            loadable: self.stats.loadable_unit_types@,
            health: self.health,
            fuel: self.fuel,
            transporting: self.transporting,
            free_cargo_slots: self.free_cargo_slots,
            loaded: self.loaded_cargo_entities@,
        }
    }
}

impl UnitSnapshot {
    /// The same once more.
    pub fn duplicate(&self) -> (r: UnitSnapshot)
        ensures
            r@ == self@,
    {
        let loaded_cargo_entities = self.loaded_cargo_entities.clone();
        assert(loaded_cargo_entities@ =~= self.loaded_cargo_entities@);
        UnitSnapshot {
            entity: self.entity,
            faction: self.faction,
            position: self.position,
            stats: self.stats.duplicate(),
            health: self.health,
            fuel: self.fuel,
            transporting: self.transporting,
            free_cargo_slots: self.free_cargo_slots,
            loaded_cargo_entities,
        }
    }
}

/// The plain contents of the snapshots.
pub open spec fn models(units: Seq<UnitSnapshot>) -> Seq<UnitModel> {
    Seq::new(units.len(), |i: int| units[i]@)
}

/// The unit that a row is: it needs an owner, a position, stats and health.
pub open spec fn unit_model(row: BoardRow) -> Option<UnitModel> {
    match (row.faction, row.position, row.stats, row.health) {
        (Some(faction), Some(position), Some(stats), Some(health)) => Some(
            UnitModel {
                entity: row.entity,
                faction,
                position,
                unit_type: stats.unit_type,
                cost: stats.cost,
                movement_type: stats.movement_type,
                max_movement: stats.max_movement,
                max_fuel: stats.max_fuel,
                max_ammo1: stats.max_ammo1,
                max_ammo2: stats.max_ammo2,
                min_range: stats.min_range,
                max_range: stats.max_range,
                can_capture: stats.can_capture,
                can_supply: stats.can_supply,
                max_cargo: stats.max_cargo,
                loadable: stats.loadable_unit_types@,
                health,
                fuel: match row.fuel {
                    Some(fuel) => Some(fuel.current),
                    None => None,
                },
                transporting: row.transporting,
                free_cargo_slots: match row.cargo {
                    Some(c) => c.max.saturating_sub(c.loaded.len() as u32),
                    None => 0,
                },
                loaded: match row.cargo {
                    Some(c) => sorted_entities(c.loaded@),
                    None => Seq::empty(),
                },
            },
        ),
        _ => None,
    }
}

/// The units among the first `n` rows.
pub open spec fn row_models(rows: Seq<BoardRow>, n: int) -> Seq<UnitModel>
    decreases n,
{
    if n <= 0 {
        Seq::empty()
    } else {
        match unit_model(rows[n - 1]) {
            Some(m) => row_models(rows, n - 1).push(m),
            None => row_models(rows, n - 1),
        }
    }
}

/// The keys by which units are ordered.
pub open spec fn entity_keys(units: Seq<UnitModel>) -> Seq<Seq<u64>> {
    Seq::new(units.len(), |i: int| seq![units[i].entity.bits])
}

/// The units of the board in the order of their entities.
pub open spec fn board_units(rows: Seq<BoardRow>) -> Seq<UnitModel> {
    let units = row_models(rows, rows.len() as int);
    gather(units, sort_order(entity_keys(units)))
}

fn take_snapshot(row: &BoardRow) -> (r: Option<UnitSnapshot>)
    ensures
        match r {
            Some(s) => unit_model(*row) == Some(s@),
            None => unit_model(*row) is None,
        },
{
    let faction = match row.faction {
        Some(f) => f,
        None => {
            return None;
        },
    };
    let position = match row.position {
        Some(p) => p,
        None => {
            return None;
        },
    };
    let health = match row.health {
        Some(h) => h,
        None => {
            return None;
        },
    };
    let stats = match &row.stats {
        Some(s) => s.duplicate(),
        None => {
            return None;
        },
    };
    let fuel: Option<u32> = match row.fuel {
        Some(f) => Some(f.current),
        None => None,
    };
    let free_cargo_slots: u32 = match &row.cargo {
        Some(c) => c.max.saturating_sub(c.loaded.len() as u32),
        None => 0,
    };
    let loaded_cargo_entities = match &row.cargo {
        Some(c) => sort_entities(&c.loaded),
        None => Vec::new(),
    };
    Some(
        UnitSnapshot {
            entity: row.entity,
            faction,
            position,
            stats,
            health,
            fuel,
            transporting: row.transporting,
            free_cargo_slots,
            loaded_cargo_entities,
        },
    )
}

/// The units of the board in the order of their entities.
pub fn collect_unit_snapshots(board: &Board) -> (r: Vec<UnitSnapshot>)
    ensures
        models(r@) == board_units(board.rows@),
{
    let ghost rows = board.rows@;
    let mut raw: Vec<UnitSnapshot> = Vec::new();
    let mut keys: Vec<Vec<u64>> = Vec::new();
    let mut n: usize = 0;
    while n < board.rows.len()
        invariant
            n <= board.rows.len(),
            rows == board.rows@,
            keys.len() == raw.len(),
            models(raw@) == row_models(rows, n as int),
            forall|i: int|
                0 <= i < keys.len() ==> (#[trigger] keys[i])@ == seq![raw[i].entity.bits],
        decreases board.rows.len() - n,
    {
        if let Some(s) = take_snapshot(&board.rows[n]) {
            let ghost before = raw@;
            let mut key: Vec<u64> = Vec::new();
            key.push(s.entity.bits);
            assert(key@ =~= seq![s.entity.bits]);
            keys.push(key);
            raw.push(s);
            assert(models(raw@) =~= models(before).push(s@));
        }
        n += 1;
    }
    let ghost units = row_models(rows, rows.len() as int);
    assert(key_views(keys@) =~= entity_keys(units)) by {
        assert forall|i: int| 0 <= i < keys.len() implies key_views(keys@)[i] == entity_keys(
            units,
        )[i] by {
            assert(models(raw@)[i] == raw@[i]@);
        }
    }
    let order = stable_order(&keys);
    let mut r: Vec<UnitSnapshot> = Vec::new();
    let mut k: usize = 0;
    while k < order.len()
        invariant
            k <= order.len(),
            order.len() == raw.len(),
            units == models(raw@),
            forall|i: int| 0 <= i < order.len() ==> #[trigger] order[i] < raw.len(),
            r.len() == k,
            forall|i: int| 0 <= i < k ==> (#[trigger] r[i])@ == units[order[i] as int],
        decreases order.len() - k,
    {
        r.push(raw[order[k]].duplicate());
        k += 1;
    }
    proof {
        lemma_sort_prefix(entity_keys(units), units.len() as int);
        assert(models(r@) =~= board_units(rows));
    }
    r
}

/// The owned entities among the first `n` rows.
pub open spec fn row_factions(rows: Seq<BoardRow>, n: int) -> Seq<(Entity, PlayerId)>
    decreases n,
{
    if n <= 0 {
        Seq::empty()
    } else {
        match rows[n - 1].faction {
            Some(f) => row_factions(rows, n - 1).push((rows[n - 1].entity, f)),
            None => row_factions(rows, n - 1),
        }
    }
}

/// The keys by which owned entities are ordered.
pub open spec fn faction_keys(list: Seq<(Entity, PlayerId)>) -> Seq<Seq<u64>> {
    Seq::new(list.len(), |i: int| seq![list[i].0.bits, list[i].1.0 as u64])
}

/// The owned entities of the board in the order of entity and owner.
pub open spec fn board_factions(rows: Seq<BoardRow>) -> Seq<(Entity, PlayerId)> {
    let list = row_factions(rows, rows.len() as int);
    gather(list, sort_order(faction_keys(list)))
}

/// The owned entities of the board in the order of entity and owner.
pub fn collect_faction_snapshots(board: &Board) -> (r: Vec<(Entity, PlayerId)>)
    ensures
        r@ == board_factions(board.rows@),
{
    let mut raw: Vec<(Entity, PlayerId)> = Vec::new();
    let mut keys: Vec<Vec<u64>> = Vec::new();
    let mut n: usize = 0;
    while n < board.rows.len()
        invariant
            n <= board.rows.len(),
            keys.len() == raw.len(),
            raw@ == row_factions(board.rows@, n as int),
            forall|i: int|
                0 <= i < keys.len() ==> (#[trigger] keys[i])@ == seq![
                    raw[i].0.bits,
                    raw[i].1.0 as u64,
                ],
        decreases board.rows.len() - n,
    {
        if let Some(f) = board.rows[n].faction {
            let entity = board.rows[n].entity;
            let mut key: Vec<u64> = Vec::new();
            key.push(entity.bits);
            key.push(f.0 as u64);
            assert(key@ =~= seq![entity.bits, f.0 as u64]);
            keys.push(key);
            raw.push((entity, f));
        }
        n += 1;
    }
    assert(key_views(keys@) =~= faction_keys(raw@));
    let order = stable_order(&keys);
    let mut r: Vec<(Entity, PlayerId)> = Vec::new();
    let mut k: usize = 0;
    while k < order.len()
        invariant
            k <= order.len(),
            order.len() == raw.len(),
            forall|i: int| 0 <= i < order.len() ==> #[trigger] order[i] < raw.len(),
            r.len() == k,
            forall|i: int| 0 <= i < k ==> #[trigger] r[i] == raw[order[i] as int],
        decreases order.len() - k,
    {
        r.push(raw[order[k]]);
        k += 1;
    }
    proof {
        lemma_sort_prefix(faction_keys(raw@), raw.len() as int);
        assert(r@ =~= board_factions(board.rows@));
    }
    r
}

/// The owner that the list gives an entity, by its last entry among the first `n`.
pub open spec fn faction_in(list: Seq<(Entity, PlayerId)>, e: Entity, n: int) -> Option<PlayerId>
    decreases n,
{
    if n <= 0 {
        None
    } else if list[n - 1].0 == e {
        Some(list[n - 1].1)
    } else {
        faction_in(list, e, n - 1)
    }
}

fn find_faction(list: &Vec<(Entity, PlayerId)>, e: Entity) -> (r: Option<PlayerId>)
    ensures
        r == faction_in(list@, e, list.len() as int),
{
    let mut n: usize = list.len();
    while n > 0
        invariant
            n <= list.len(),
            faction_in(list@, e, list.len() as int) == faction_in(list@, e, n as int),
        decreases n,
    {
        if list[n - 1].0 == e {
            return Some(list[n - 1].1);
        }
        n -= 1;
    }
    None
}

/// The player is one of those who own the squad or a unit that it names.
pub open spec fn has_owner(squad: Squad, factions: Seq<(Entity, PlayerId)>, player: PlayerId) -> bool {
    squad.owner_id == Some(player) || exists|i: int|
        0 <= i < squad_entities(squad).len() && faction_in(
            factions,
            #[trigger] squad_entities(squad)[i],
            factions.len() as int,
        ) == Some(player)
}

/// More than one player owns the squad or units that it names.
pub open spec fn is_mixed(squad: Squad, factions: Seq<(Entity, PlayerId)>) -> bool {
    exists|a: PlayerId, b: PlayerId|
        a != b && #[trigger] has_owner(squad, factions, a) && #[trigger] has_owner(
            squad,
            factions,
            b,
        )
}

/// A squad with more than one owner names the unit: no campaign may count on it.
pub open spec fn is_disputed(
    squads: Seq<Squad>,
    factions: Seq<(Entity, PlayerId)>,
    e: Entity,
) -> bool {
    exists|i: int|
        0 <= i < squads.len() && is_mixed(#[trigger] squads[i], factions) && squad_entities(
            squads[i],
        ).contains(e)
}

fn mixed(squad: &Squad, factions: &Vec<(Entity, PlayerId)>) -> (r: bool)
    ensures
        r == is_mixed(*squad, factions@),
{
    let entities = all_squad_entities(squad);
    let mut first: Option<PlayerId> = squad.owner_id;
    let ghost sq = *squad;
    let mut n: usize = 0;
    while n < entities.len()
        invariant
            n <= entities.len(),
            sq == *squad,
            entities@ == squad_entities(sq),
            squad.owner_id is Some ==> first == squad.owner_id,
            first matches Some(p) ==> has_owner(sq, factions@, p),
            first is None ==> squad.owner_id is None,
            forall|i: int|
                0 <= i < n ==> match faction_in(
                    factions@,
                    #[trigger] entities[i],
                    factions.len() as int,
                ) {
                    Some(p) => first == Some(p),
                    None => true,
                },
        decreases entities.len() - n,
    {
        let found = find_faction(factions, entities[n]);
        if let Some(p) = found {
            assert(faction_in(factions@, squad_entities(sq)[n as int], factions.len() as int)
                == Some(p));
            assert(has_owner(sq, factions@, p));
            match first {
                Some(q) => {
                    if p != q {
                        assert(has_owner(sq, factions@, q));
                        return true;
                    }
                },
                None => {
                    first = Some(p);
                },
            }
        }
        n += 1;
    }
    proof {
        assert forall|p: PlayerId| #[trigger] has_owner(sq, factions@, p) implies first == Some(
            p,
        ) by {
            if sq.owner_id != Some(p) {
                let i = choose|i: int|
                    0 <= i < squad_entities(sq).len() && faction_in(
                        factions@,
                        #[trigger] squad_entities(sq)[i],
                        factions.len() as int,
                    ) == Some(p);
                assert(entities[i] == squad_entities(sq)[i]);
            }
        }
    }
    false
}

/// The units that a squad with more than one owner names, in ascending order. An owner that is
/// stated and the owners of its units count alike, so that no campaign reserves such a unit twice.
pub fn mixed_owner_squad_entities(manager: &SquadManager, factions: &Vec<(Entity, PlayerId)>) -> (r:
    Vec<Entity>)
    ensures
        ascending(r@),
        forall|e: Entity|
            #[trigger] r@.contains(e) <==> is_disputed(manager.squads@, factions@, e),
{
    let mut all: Vec<Entity> = Vec::new();
    let mut n: usize = 0;
    while n < manager.squads.len()
        invariant
            n <= manager.squads.len(),
            forall|e: Entity|
                #[trigger] all@.contains(e) <==> exists|i: int|
                    0 <= i < n && is_mixed(#[trigger] manager.squads[i], factions@)
                        && squad_entities(manager.squads[i]).contains(e),
        decreases manager.squads.len() - n,
    {
        let ghost before = all@;
        let ghost squad = manager.squads[n as int];
        if mixed(&manager.squads[n], factions) {
            let entities = all_squad_entities(&manager.squads[n]);
            push_entities(&mut all, &entities);
            proof {
                lemma_contains_sum(before, entities@);
            }
        }
        proof {
            assert forall|e: Entity|
                #[trigger] all@.contains(e) <==> exists|i: int|
                    0 <= i < n + 1 && is_mixed(#[trigger] manager.squads[i], factions@)
                        && squad_entities(manager.squads[i]).contains(e) by {
                if before.contains(e) {
                    let i = choose|i: int|
                        0 <= i < n && is_mixed(#[trigger] manager.squads[i], factions@)
                            && squad_entities(manager.squads[i]).contains(e);
                    assert(0 <= i < n + 1 && is_mixed(manager.squads[i], factions@));
                }
                if is_mixed(squad, factions@) && squad_entities(squad).contains(e) {
                    assert(is_mixed(manager.squads[n as int], factions@));
                }
                if exists|i: int|
                    0 <= i < n + 1 && is_mixed(#[trigger] manager.squads[i], factions@)
                        && squad_entities(manager.squads[i]).contains(e) {
                    let i = choose|i: int|
                        0 <= i < n + 1 && is_mixed(#[trigger] manager.squads[i], factions@)
                            && squad_entities(manager.squads[i]).contains(e);
                    if i < n {
                        assert(before.contains(e));
                    }
                }
            }
        }
        n += 1;
    }
    proof {
        lemma_sorted_entities(all@);
    }
    sort_entities(&all)
}

/// The units among the first `n` that are not disputed.
pub open spec fn undisputed(
    squads: Seq<Squad>,
    factions: Seq<(Entity, PlayerId)>,
    units: Seq<UnitModel>,
    n: int,
) -> Seq<UnitModel>
    decreases n,
{
    if n <= 0 {
        Seq::empty()
    } else if is_disputed(squads, factions, units[n - 1].entity) {
        undisputed(squads, factions, units, n - 1)
    } else {
        undisputed(squads, factions, units, n - 1).push(units[n - 1])
    }
}

/// The units that campaigns may count on.
pub open spec fn campaign_units(squads: Seq<Squad>, rows: Seq<BoardRow>) -> Seq<UnitModel> {
    let units = board_units(rows);
    undisputed(squads, board_factions(rows), units, units.len() as int)
}

/// The units that are not disputed.
pub fn campaign_unit_snapshots(
    manager: &SquadManager,
    units: Vec<UnitSnapshot>,
    factions: &Vec<(Entity, PlayerId)>,
) -> (r: Vec<UnitSnapshot>)
    ensures
        models(r@) == undisputed(manager.squads@, factions@, models(units@), units.len() as int),
{
    let unavailable = mixed_owner_squad_entities(manager, factions);
    let mut r: Vec<UnitSnapshot> = Vec::new();
    let ghost all = models(units@);
    let mut n: usize = 0;
    while n < units.len()
        invariant
            n <= units.len(),
            all == models(units@),
            forall|e: Entity|
                #[trigger] unavailable@.contains(e) <==> is_disputed(
                    manager.squads@,
                    factions@,
                    e,
                ),
            models(r@) == undisputed(manager.squads@, factions@, all, n as int),
        decreases units.len() - n,
    {
        let ghost before = r@;
        assert(all[n as int] == units[n as int]@);
        if !contains_entity(&unavailable, units[n].entity) {
            let s = units[n].duplicate();
            r.push(s);
            assert(models(r@) =~= models(before).push(s@));
        }
        n += 1;
    }
    r
}

/// The buildings among the first `n` rows.
pub open spec fn row_properties(rows: Seq<BoardRow>, n: int) -> Seq<PropertySnapshot>
    decreases n,
{
    if n <= 0 {
        Seq::empty()
    } else {
        match (rows[n - 1].position, rows[n - 1].property) {
            (Some(position), Some(property)) => row_properties(rows, n - 1).push(
                PropertySnapshot { position, property },
            ),
            _ => row_properties(rows, n - 1),
        }
    }
}

/// The keys by which buildings are ordered: row, then column.
pub open spec fn property_keys(list: Seq<PropertySnapshot>) -> Seq<Seq<u64>> {
    Seq::new(list.len(), |i: int| seq![list[i].position.y as u64, list[i].position.x as u64])
}

/// The buildings of the board in reading order.
pub open spec fn board_properties(rows: Seq<BoardRow>) -> Seq<PropertySnapshot> {
    let list = row_properties(rows, rows.len() as int);
    gather(list, sort_order(property_keys(list)))
}

/// The buildings of the board in reading order.
pub fn collect_property_snapshots(board: &Board) -> (r: Vec<PropertySnapshot>)
    ensures
        r@ == board_properties(board.rows@),
{
    let mut raw: Vec<PropertySnapshot> = Vec::new();
    let mut keys: Vec<Vec<u64>> = Vec::new();
    let mut n: usize = 0;
    while n < board.rows.len()
        invariant
            n <= board.rows.len(),
            keys.len() == raw.len(),
            raw@ == row_properties(board.rows@, n as int),
            forall|i: int|
                0 <= i < keys.len() ==> (#[trigger] keys[i])@ == seq![
                    raw[i].position.y as u64,
                    raw[i].position.x as u64,
                ],
        decreases board.rows.len() - n,
    {
        if let Some(position) = board.rows[n].position {
            if let Some(property) = board.rows[n].property {
                let mut key: Vec<u64> = Vec::new();
                key.push(position.y as u64);
                key.push(position.x as u64);
                assert(key@ =~= seq![position.y as u64, position.x as u64]);
                keys.push(key);
                raw.push(PropertySnapshot { position, property });
            }
        }
        n += 1;
    }
    assert(key_views(keys@) =~= property_keys(raw@));
    let order = stable_order(&keys);
    let mut r: Vec<PropertySnapshot> = Vec::new();
    let mut k: usize = 0;
    while k < order.len()
        invariant
            k <= order.len(),
            order.len() == raw.len(),
            forall|i: int| 0 <= i < order.len() ==> #[trigger] order[i] < raw.len(),
            r.len() == k,
            forall|i: int| 0 <= i < k ==> #[trigger] r[i] == raw[order[i] as int],
        decreases order.len() - k,
    {
        r.push(raw[order[k]]);
        k += 1;
    }
    proof {
        lemma_sort_prefix(property_keys(raw@), raw.len() as int);
        assert(r@ =~= board_properties(board.rows@));
    }
    r
}

/// A unit that a squad of several owners names is nobody's to count on, whoever owns it.
pub proof fn law_disputed_units_are_left_out(squads: Seq<Squad>, rows: Seq<BoardRow>, i: int)
    requires
        0 <= i < campaign_units(squads, rows).len(),
    ensures
        !is_disputed(squads, board_factions(rows), campaign_units(squads, rows)[i].entity),
{
    let units = board_units(rows);
    lemma_undisputed(squads, board_factions(rows), units, units.len() as int, i);
}

proof fn lemma_undisputed(
    squads: Seq<Squad>,
    factions: Seq<(Entity, PlayerId)>,
    units: Seq<UnitModel>,
    n: int,
    i: int,
)
    requires
        0 <= i < undisputed(squads, factions, units, n).len(),
    ensures
        !is_disputed(squads, factions, undisputed(squads, factions, units, n)[i].entity),
    decreases n,
{
    if n > 0 && i < undisputed(squads, factions, units, n - 1).len() {
        lemma_undisputed(squads, factions, units, n - 1, i);
    }
}

} // verus!
