//! What holds of what is read off the board.
use crate::board::BoardRow;
use crate::campaign_facts::tells_of_unit;
use crate::damage::DamageChart;
use crate::entity::{ascending, lemma_sorted_entities, Entity};
use crate::grid::{read_before, GameMap, GridPosition, Terrain};
use crate::islands::{describes, law_land_belongs_to_one_island, some_island_has, Island, IslandId};
use crate::master_data::MasterDataRegistry;
use crate::occupants::{free_room, occupying, tells_of, tells_of_all, Occupant};
use crate::operation_assignment::{owner_player, EmergencyMissionId, OperationOwner};
use crate::order::{
    lemma_gathered, lemma_lex_by, lemma_never_before, lemma_pushed, lemma_sort_prefix, sort_order,
    stands_before,
};
use crate::production_survey::{
    airports_of, capabilities, capability, capable_among, capital_from, describes_unit,
    facilities_of, income_of, owned_site, room_left, row_positions, side_rows, unit_is, units_are,
    CombatCapabilitySnapshot, UnitSide,
};
use crate::snapshots::{
    board_factions, board_properties, board_units, campaign_units, entity_keys, faction_in,
    faction_keys, has_owner, is_disputed, is_mixed, property_keys, row_factions, row_models,
    row_properties, undisputed, unit_model, PropertySnapshot, UnitModel,
};
use crate::squad::{squad_entities, Squad, SquadId};
use crate::units::{PlayerId, UnitStats, UnitType};
use vstd::prelude::*;

verus! {

/// The damage is that of the last row for the pair.
pub proof fn law_damage_is_as_last_listed(
    chart: DamageChart,
    attacker: UnitType,
    defender: UnitType,
    k: int,
)
    ensures
        0 <= k < chart.primary.len() && chart.primary[k].attacker == attacker
            && chart.primary[k].defender == defender && (forall|j: int|
            k < j < chart.primary.len() ==> (#[trigger] chart.primary@[j]).attacker != attacker
                || chart.primary@[j].defender != defender) ==> chart.first(attacker, defender)
            == Some(chart.primary[k].damage),
        0 <= k < chart.secondary.len() && chart.secondary[k].attacker == attacker
            && chart.secondary[k].defender == defender && (forall|j: int|
            k < j < chart.secondary.len() ==> (#[trigger] chart.secondary@[j]).attacker != attacker
                || chart.secondary@[j].defender != defender) ==> chart.second(attacker, defender)
            == Some(chart.secondary[k].damage),
        (forall|j: int|
            0 <= j < chart.primary.len() ==> (#[trigger] chart.primary@[j]).attacker != attacker
                || chart.primary@[j].defender != defender) ==> chart.first(
            attacker,
            defender,
        ) is None,
        (forall|j: int|
            0 <= j < chart.secondary.len() ==> (#[trigger] chart.secondary@[j]).attacker != attacker
                || chart.secondary@[j].defender != defender) ==> chart.second(
            attacker,
            defender,
        ) is None,
{
    lemma_damage_in(chart.primary@, attacker, defender, k, chart.primary.len() as int);
    lemma_damage_in(chart.secondary@, attacker, defender, k, chart.secondary.len() as int);
}

proof fn lemma_damage_in(
    rows: Seq<crate::damage::DamageRow>,
    attacker: UnitType,
    defender: UnitType,
    k: int,
    n: int,
)
    requires
        0 <= n <= rows.len(),
    ensures
        0 <= k < n && rows[k].attacker == attacker && rows[k].defender == defender && (forall|
            j: int,
        |
            k < j < n ==> (#[trigger] rows[j]).attacker != attacker || rows[j].defender != defender)
            ==> crate::damage::damage_in(rows, attacker, defender, n) == Some(rows[k].damage),
        (forall|j: int|
            0 <= j < n ==> (#[trigger] rows[j]).attacker != attacker || rows[j].defender
                != defender) ==> crate::damage::damage_in(rows, attacker, defender, n) is None,
    decreases n,
{
    if n > 0 {
        lemma_damage_in(rows, attacker, defender, k, n - 1);
    }
}

/// The better weapon counts; a weapon that is not listed does nothing.
pub proof fn law_better_weapon_counts(chart: DamageChart, attacker: UnitType, defender: UnitType)
    ensures
        ({
            let r = chart.best(attacker, defender);
            let a = chart.first(attacker, defender);
            let b = chart.second(attacker, defender);
            &&& a is Some ==> r >= a->0
            &&& b is Some ==> r >= b->0
            &&& r > 0 ==> a == Some(r) || b == Some(r)
        }),
{
}

/// Nothing but the sea parts islands: every position on the map that is not sea lies on one, and
/// nothing else does.
pub proof fn law_only_the_sea_parts_islands(map: GameMap, islands: Seq<Island>, p: GridPosition)
    requires
        describes(map, islands),
    ensures
        some_island_has(islands, p) <==> map.terrain_at(p) is Some && map.terrain_at(p)
            != Some(Terrain::Sea),
{
    law_land_belongs_to_one_island(map, islands, p);
}

/// A row is a unit if it has an owner, a place, stats and health. The unit is as the row says; its
/// hold has the room that is not taken, and lists what is in it once each, in order.
pub proof fn law_unit_is_as_its_row_says(row: BoardRow)
    requires
        row.cargo is Some ==> row.cargo->0.loaded.len() <= u32::MAX,
    ensures
        ({
            let m = unit_model(row);
            &&& m is Some <==> row.faction is Some && row.position is Some && row.stats is Some
                && row.health is Some
            &&& m is Some ==> {
                let u = m->0;
                let s = row.stats->0;
                &&& u.entity == row.entity && Some(u.faction) == row.faction && Some(u.position)
                    == row.position && Some(u.health) == row.health && u.transporting
                    == row.transporting
                &&& u.unit_type == s.unit_type && u.cost == s.cost && u.movement_type
                    == s.movement_type && u.max_movement == s.max_movement
                &&& u.max_fuel == s.max_fuel && u.max_ammo1 == s.max_ammo1 && u.max_ammo2
                    == s.max_ammo2 && u.min_range == s.min_range && u.max_range == s.max_range
                &&& u.can_capture == s.can_capture && u.can_supply == s.can_supply && u.max_cargo
                    == s.max_cargo && u.loadable == s.loadable_unit_types@
                &&& u.fuel is Some <==> row.fuel is Some
                &&& row.fuel is Some ==> u.fuel == Some(row.fuel->0.current)
                &&& row.cargo is None ==> u.free_cargo_slots == 0 && u.loaded.len() == 0
                &&& row.cargo is Some ==> {
                    let c = row.cargo->0;
                    &&& u.free_cargo_slots == (if c.max >= c.loaded.len() {
                        c.max - c.loaded.len()
                    } else {
                        0
                    })
                    &&& ascending(u.loaded)
                    &&& forall|e: Entity| #[trigger] u.loaded.contains(e) <==> c.loaded@.contains(e)
                }
            }
        }),
{
    if row.cargo is Some {
        lemma_sorted_entities(row.cargo->0.loaded@);
    }
}

proof fn lemma_row_models(rows: Seq<BoardRow>, n: int, u: UnitModel)
    requires
        0 <= n <= rows.len(),
    ensures
        row_models(rows, n).contains(u) <==> exists|k: int|
            0 <= k < n && unit_model(#[trigger] rows[k]) == Some(u),
    decreases n,
{
    if n > 0 {
        lemma_row_models(rows, n - 1, u);
        if let Some(m) = unit_model(rows[n - 1]) {
            lemma_pushed(row_models(rows, n - 1), m, u);
        }
        if row_models(rows, n - 1).contains(u) {
            let k = choose|k: int| 0 <= k < n - 1 && unit_model(#[trigger] rows[k]) == Some(u);
            assert(unit_model(rows[k]) == Some(u));
        }
    }
}

/// The units of the board are those that its rows are, in the order of their numbers.
pub proof fn law_board_lists_all_units(rows: Seq<BoardRow>, u: UnitModel)
    ensures
        ({
            let all = board_units(rows);
            &&& all.contains(u) <==> exists|k: int|
                0 <= k < rows.len() && unit_model(#[trigger] rows[k]) == Some(u)
            &&& forall|i: int, j: int|
                0 <= i < j < all.len() ==> (#[trigger] all[i]).entity.bits <= (
                #[trigger] all[j]).entity.bits
        }),
{
    let list = row_models(rows, rows.len() as int);
    let keys = entity_keys(list);
    let all = board_units(rows);
    lemma_row_models(rows, rows.len() as int, u);
    lemma_gathered(list, keys, u);
    lemma_sort_prefix(keys, keys.len() as int);
    let order = sort_order(keys);
    assert forall|i: int, j: int| 0 <= i < j < all.len() implies (
    #[trigger] all[i]).entity.bits <= (#[trigger] all[j]).entity.bits by {
        assert(stands_before(keys, order[i], order[j]));
        lemma_never_before(keys, order[i], order[j]);
        if all[j].entity.bits < all[i].entity.bits {
            lemma_lex_by(keys[order[j]], keys[order[i]], 0);
        }
    }
}

proof fn lemma_row_factions(rows: Seq<BoardRow>, n: int, x: (Entity, PlayerId))
    requires
        0 <= n <= rows.len(),
    ensures
        row_factions(rows, n).contains(x) <==> exists|k: int|
            0 <= k < n && (#[trigger] rows[k]).entity == x.0 && rows[k].faction == Some(x.1),
    decreases n,
{
    if n > 0 {
        lemma_row_factions(rows, n - 1, x);
        if let Some(f) = rows[n - 1].faction {
            lemma_pushed(row_factions(rows, n - 1), (rows[n - 1].entity, f), x);
        }
        if row_factions(rows, n - 1).contains(x) {
            let k = choose|k: int|
                0 <= k < n - 1 && (#[trigger] rows[k]).entity == x.0 && rows[k].faction == Some(
                    x.1,
                );
            assert(rows[k].entity == x.0);
        }
    }
}

/// Everything on the board that has an owner is listed with that owner, and nothing else is.
pub proof fn law_owners_are_as_on_the_board(rows: Seq<BoardRow>, e: Entity, player: PlayerId)
    ensures
        board_factions(rows).contains((e, player)) <==> exists|k: int|
            0 <= k < rows.len() && (#[trigger] rows[k]).entity == e && rows[k].faction == Some(
                player,
            ),
{
    let list = row_factions(rows, rows.len() as int);
    lemma_row_factions(rows, rows.len() as int, (e, player));
    lemma_gathered(list, faction_keys(list), (e, player));
}

/// The owner of a unit is the one that its last entry names.
pub proof fn law_owner_is_as_last_listed(list: Seq<(Entity, PlayerId)>, e: Entity, n: int)
    requires
        0 <= n <= list.len(),
    ensures
        match faction_in(list, e, n) {
            Some(f) => exists|k: int|
                0 <= k < n && #[trigger] list[k] == (e, f) && forall|j: int|
                    k < j < n ==> (#[trigger] list[j]).0 != e,
            None => forall|k: int| 0 <= k < n ==> (#[trigger] list[k]).0 != e,
        },
    decreases n,
{
    if n > 0 {
        law_owner_is_as_last_listed(list, e, n - 1);
        if list[n - 1].0 != e && faction_in(list, e, n - 1) is Some {
            let f = faction_in(list, e, n - 1)->0;
            let k = choose|k: int|
                0 <= k < n - 1 && #[trigger] list[k] == (e, f) && forall|j: int|
                    k < j < n - 1 ==> (#[trigger] list[j]).0 != e;
            assert(list[k] == (e, f));
        } else if list[n - 1].0 == e {
            assert(list[n - 1] == (e, list[n - 1].1));
        }
    }
}

/// The squad names the unit: as its transport, as a member, as cargo or as landed.
pub open spec fn names(squad: Squad, e: Entity) -> bool {
    squad.transport_entity == Some(e) || squad.members@.contains(e)
        || squad.cargo_entities@.contains(e) || squad.delivered_cargo@.contains(e)
}

proof fn lemma_names(squad: Squad, e: Entity)
    ensures
        squad_entities(squad).contains(e) <==> names(squad, e),
{
    let t = match squad.transport_entity {
        Some(x) => seq![x],
        None => Seq::empty(),
    };
    if squad.transport_entity is Some {
        assert(t[0] == squad.transport_entity->0);
    }
    crate::order::lemma_joined(t, squad.members@, e);
    crate::order::lemma_joined(t + squad.members@, squad.cargo_entities@, e);
    crate::order::lemma_joined(
        t + squad.members@ + squad.cargo_entities@,
        squad.delivered_cargo@,
        e,
    );
}

/// The player has a share in the squad: it is theirs, or a unit that it names is.
pub open spec fn has_share(
    squad: Squad,
    factions: Seq<(Entity, PlayerId)>,
    player: PlayerId,
) -> bool {
    squad.owner_id == Some(player) || exists|e: Entity| #[trigger]
        names(squad, e) && faction_in(factions, e, factions.len() as int) == Some(player)
}

/// A unit is disputed exactly if a squad in which two players have a share names it.
pub proof fn law_units_of_shared_squads_are_disputed(
    squads: Seq<Squad>,
    factions: Seq<(Entity, PlayerId)>,
    e: Entity,
)
    ensures
        is_disputed(squads, factions, e) <==> exists|i: int, a: PlayerId, b: PlayerId|
            {
                &&& 0 <= i < squads.len()
                &&& names(squads[i], e)
                &&& a != b
                &&& #[trigger] has_share(squads[i], factions, a)
                &&& #[trigger] has_share(squads[i], factions, b)
            },
{
    assert forall|s: Squad, p: PlayerId| #[trigger] has_share(s, factions, p) <==> has_owner(
        s,
        factions,
        p,
    ) by {
        let list = squad_entities(s);
        if s.owner_id != Some(p) {
            if has_share(s, factions, p) {
                let x = choose|x: Entity| #[trigger]
                    names(s, x) && faction_in(factions, x, factions.len() as int) == Some(p);
                lemma_names(s, x);
                let i = choose|i: int| 0 <= i < list.len() && list[i] == x;
                assert(faction_in(factions, list[i], factions.len() as int) == Some(p));
            }
            if has_owner(s, factions, p) {
                let i = choose|i: int|
                    0 <= i < list.len() && faction_in(
                        factions,
                        #[trigger] list[i],
                        factions.len() as int,
                    ) == Some(p);
                assert(list.contains(list[i]));
                lemma_names(s, list[i]);
                assert(names(s, list[i]));
            }
        }
    }
    if is_disputed(squads, factions, e) {
        let i = choose|i: int|
            0 <= i < squads.len() && is_mixed(#[trigger] squads[i], factions) && squad_entities(
                squads[i],
            ).contains(e);
        lemma_names(squads[i], e);
        let (a, b) = choose|a: PlayerId, b: PlayerId|
            a != b && #[trigger] has_owner(squads[i], factions, a) && #[trigger] has_owner(
                squads[i],
                factions,
                b,
            );
        assert(has_share(squads[i], factions, a) && has_share(squads[i], factions, b));
    }
    if exists|i: int, a: PlayerId, b: PlayerId|
        {
            &&& 0 <= i < squads.len()
            &&& names(squads[i], e)
            &&& a != b
            &&& #[trigger] has_share(squads[i], factions, a)
            &&& #[trigger] has_share(squads[i], factions, b)
        } {
        let (i, a, b) = choose|i: int, a: PlayerId, b: PlayerId|
            {
                &&& 0 <= i < squads.len()
                &&& names(squads[i], e)
                &&& a != b
                &&& #[trigger] has_share(squads[i], factions, a)
                &&& #[trigger] has_share(squads[i], factions, b)
            };
        lemma_names(squads[i], e);
        assert(has_owner(squads[i], factions, a) && has_owner(squads[i], factions, b));
        assert(is_mixed(squads[i], factions));
    }
}

proof fn lemma_undisputed(
    squads: Seq<Squad>,
    factions: Seq<(Entity, PlayerId)>,
    units: Seq<UnitModel>,
    n: int,
    u: UnitModel,
)
    requires
        0 <= n <= units.len(),
    ensures
        undisputed(squads, factions, units, n).contains(u) <==> units.take(n).contains(u)
            && !is_disputed(squads, factions, u.entity),
    decreases n,
{
    if n > 0 {
        lemma_undisputed(squads, factions, units, n - 1, u);
        assert(units.take(n) =~= units.take(n - 1).push(units[n - 1]));
        lemma_pushed(units.take(n - 1), units[n - 1], u);
        lemma_pushed(undisputed(squads, factions, units, n - 1), units[n - 1], u);
    } else {
        assert(units.take(0) =~= Seq::<UnitModel>::empty());
    }
}

/// Campaigns count on every unit of the board that is not disputed, and on no other.
pub proof fn law_campaigns_count_on_undisputed_units(
    squads: Seq<Squad>,
    rows: Seq<BoardRow>,
    u: UnitModel,
)
    ensures
        campaign_units(squads, rows).contains(u) <==> board_units(rows).contains(u) && !is_disputed(
            squads,
            board_factions(rows),
            u.entity,
        ),
{
    let units = board_units(rows);
    assert(units.take(units.len() as int) =~= units);
    lemma_undisputed(squads, board_factions(rows), units, units.len() as int, u);
}

proof fn lemma_row_properties(rows: Seq<BoardRow>, n: int, s: PropertySnapshot)
    requires
        0 <= n <= rows.len(),
    ensures
        row_properties(rows, n).contains(s) <==> exists|k: int|
            0 <= k < n && (#[trigger] rows[k]).position == Some(s.position) && rows[k].property
                == Some(s.property),
    decreases n,
{
    if n > 0 {
        lemma_row_properties(rows, n - 1, s);
        let row = rows[n - 1];
        if row.position is Some && row.property is Some {
            lemma_pushed(
                row_properties(rows, n - 1),
                PropertySnapshot { position: row.position->0, property: row.property->0 },
                s,
            );
        }
        if row_properties(rows, n - 1).contains(s) {
            let k = choose|k: int|
                0 <= k < n - 1 && (#[trigger] rows[k]).position == Some(s.position)
                    && rows[k].property == Some(s.property);
            assert(rows[k].position == Some(s.position));
        }
    }
}

/// The buildings of the board are listed where they stand, all of them, in reading order.
pub proof fn law_board_lists_all_buildings(rows: Seq<BoardRow>, s: PropertySnapshot)
    ensures
        ({
            let all = board_properties(rows);
            &&& all.contains(s) <==> exists|k: int|
                0 <= k < rows.len() && (#[trigger] rows[k]).position == Some(s.position)
                    && rows[k].property == Some(s.property)
            &&& forall|i: int, j: int|
                0 <= i < j < all.len() ==> !read_before(
                    (#[trigger] all[j]).position,
                    (#[trigger] all[i]).position,
                )
        }),
{
    let list = row_properties(rows, rows.len() as int);
    let keys = property_keys(list);
    let all = board_properties(rows);
    lemma_row_properties(rows, rows.len() as int, s);
    lemma_gathered(list, keys, s);
    lemma_sort_prefix(keys, keys.len() as int);
    let order = sort_order(keys);
    assert forall|i: int, j: int| 0 <= i < j < all.len() implies !read_before(
        (#[trigger] all[j]).position,
        (#[trigger] all[i]).position,
    ) by {
        assert(stands_before(keys, order[i], order[j]));
        lemma_never_before(keys, order[i], order[j]);
        let x = keys[order[j]];
        let y = keys[order[i]];
        if read_before(all[j].position, all[i].position) {
            lemma_lex_by(
                x,
                y,
                if x[0] != y[0] {
                    0
                } else {
                    1
                },
            );
        }
    }
}

/// Who stands on the board: everything with an owner, a place and stats, though where it is asked
/// for not what a transport carries.
pub proof fn law_occupants_are_on_the_board(rows: Seq<BoardRow>, outside: bool, n: int, x: BoardRow)
    requires
        0 <= n <= rows.len(),
    ensures
        occupying(rows, outside, n).contains(x) <==> {
            &&& exists|k: int| 0 <= k < n && #[trigger] rows[k] == x
            &&& x.faction is Some && x.position is Some && x.stats is Some
            &&& !outside || x.transporting is None
        },
    decreases n,
{
    if n > 0 {
        law_occupants_are_on_the_board(rows, outside, n - 1, x);
        lemma_pushed(occupying(rows, outside, n - 1), rows[n - 1], x);
        assert((exists|k: int| 0 <= k < n && #[trigger] rows[k] == x) <==> (rows[n - 1] == x || exists|
            k: int,
        |
            0 <= k < n - 1 && #[trigger] rows[k] == x)) by {
            if exists|k: int| 0 <= k < n - 1 && #[trigger] rows[k] == x {
                let k = choose|k: int| 0 <= k < n - 1 && #[trigger] rows[k] == x;
                assert(rows[k] == x);
            }
        }
    }
}

/// The room that a hold has left is what is not taken.
pub proof fn law_room_is_what_is_not_taken(row: BoardRow, stats: UnitStats)
    requires
        row.cargo is Some ==> row.cargo->0.loaded.len() <= u32::MAX,
    ensures
        row.cargo is Some ==> ({
            let c = row.cargo->0;
            &&& c.loaded.len() <= c.max ==> free_room(row, true) + c.loaded.len() == c.max
            &&& c.loaded.len() > c.max ==> free_room(row, true) == 0
            &&& c.loaded.len() <= stats.max_cargo ==> room_left(row, stats) + c.loaded.len()
                == stats.max_cargo
            &&& c.loaded.len() > stats.max_cargo ==> room_left(row, stats) == 0
        }),
        row.cargo is None ==> free_room(row, true) == 0 && room_left(row, stats) == stats.max_cargo,
        row.stats is Some ==> free_room(row, false) == row.stats->0.max_cargo,
{
}

/// The units of a side are those on the board outside of transports that the player owns, or that
/// somebody else owns, or that the player owns as transports with nothing in them.
pub proof fn law_sides_are_told_by_owner(
    rows: Seq<BoardRow>,
    player: PlayerId,
    side: UnitSide,
    n: int,
    x: BoardRow,
)
    requires
        0 <= n <= rows.len(),
    ensures
        side_rows(rows, player, side, n).contains(x) <==> {
            &&& exists|k: int| 0 <= k < n && #[trigger] rows[k] == x
            &&& x.faction is Some && x.position is Some && x.stats is Some
            &&& x.transporting is None
            &&& x.faction == Some(player) <==> side != UnitSide::Enemy
            &&& side == UnitSide::EmptyTransport ==> x.stats->0.max_cargo > 0 && x.cargo is Some
                && x.cargo->0.loaded.len() == 0
        },
    decreases n,
{
    if n > 0 {
        law_sides_are_told_by_owner(rows, player, side, n - 1, x);
        lemma_pushed(side_rows(rows, player, side, n - 1), rows[n - 1], x);
        assert((exists|k: int| 0 <= k < n && #[trigger] rows[k] == x) <==> (rows[n - 1] == x || exists|
            k: int,
        |
            0 <= k < n - 1 && #[trigger] rows[k] == x)) by {
            if exists|k: int| 0 <= k < n - 1 && #[trigger] rows[k] == x {
                let k = choose|k: int| 0 <= k < n - 1 && #[trigger] rows[k] == x;
                assert(rows[k] == x);
            }
        }
    }
}

/// A unit's strength is that of its row. What the row does not say counts as whole: full health,
/// ammunition and fuel; but only a unit that is known to be ready acts without delay.
pub proof fn law_strength_is_as_the_row_says(
    row: BoardRow,
    faction: PlayerId,
    position: GridPosition,
    stats: UnitStats,
)
    ensures
        ({
            let c = capability(row, faction, position, stats);
            &&& c.faction == faction && c.position == position
            &&& c.unit_type == stats.unit_type && c.movement_type == stats.movement_type && c.cost
                == stats.cost
            &&& c.max_movement == stats.max_movement && c.min_range == stats.min_range
                && c.max_range == stats.max_range
            &&& c.max_ammo1 == stats.max_ammo1 && c.max_ammo2 == stats.max_ammo2
            &&& row.health is Some ==> c.hp == row.health->0.current
            &&& row.health is None ==> c.hp == 100
            &&& row.ammo is Some ==> c.ammo1 == row.ammo->0.ammo1 && c.ammo2 == row.ammo->0.ammo2
            &&& row.ammo is None ==> c.ammo1 == c.max_ammo1 && c.ammo2 == c.max_ammo2
            &&& row.fuel is Some ==> c.fuel == row.fuel->0.current
            &&& row.fuel is None ==> c.fuel == stats.max_fuel
            &&& c.action_delay == 0 <==> row.action_completed == Some(false)
            &&& c.action_delay <= 1
        }),
{
}

/// The strength of a side is that of its units on the board, each once.
pub proof fn law_strength_counts_own_units(rows: Seq<BoardRow>, player: PlayerId, n: int)
    requires
        0 < n <= rows.len(),
    ensures
        ({
            let before = capabilities(rows, player, n - 1);
            let after = capabilities(rows, player, n);
            let row = rows[n - 1];
            let counts = row.faction == Some(player) && row.position is Some && row.stats is Some
                && row.transporting is None;
            &&& counts ==> after == before.push(
                capability(row, player, row.position->0, row.stats->0),
            )
            &&& !counts ==> after == before
            &&& capabilities(rows, player, 0).len() == 0
        }),
{
}

/// The row is a building of the player with that terrain at that place.
pub open spec fn is_own_building(
    row: BoardRow,
    player: PlayerId,
    p: GridPosition,
    t: Terrain,
) -> bool {
    row.position == Some(p) && row.property is Some && row.property->0.owner_id == Some(player)
        && row.property->0.terrain == t
}

/// The capital is the first row with a capital of the player.
pub proof fn law_capital_is_the_players_first(rows: Seq<BoardRow>, player: PlayerId, i: int)
    requires
        0 <= i <= rows.len(),
    ensures
        match capital_from(rows, player, i) {
            Some(p) => exists|k: int|
                i <= k < rows.len() && is_own_building(
                    #[trigger] rows[k],
                    player,
                    p,
                    Terrain::Capital,
                ) && forall|j: int, q: GridPosition|
                    i <= j < k ==> !#[trigger] is_own_building(
                        rows[j],
                        player,
                        q,
                        Terrain::Capital,
                    ),
            None => forall|j: int, q: GridPosition|
                i <= j < rows.len() ==> !#[trigger] is_own_building(
                    rows[j],
                    player,
                    q,
                    Terrain::Capital,
                ),
        },
    decreases rows.len() - i,
{
    if i < rows.len() {
        law_capital_is_the_players_first(rows, player, i + 1);
        if let Some((p, Terrain::Capital)) = owned_site(rows[i], player) {
            assert(is_own_building(rows[i], player, p, Terrain::Capital));
        } else if let Some(p) = capital_from(rows, player, i + 1) {
            let k = choose|k: int|
                i + 1 <= k < rows.len() && is_own_building(
                    #[trigger] rows[k],
                    player,
                    p,
                    Terrain::Capital,
                ) && forall|j: int, q: GridPosition|
                    i + 1 <= j < k ==> !#[trigger] is_own_building(
                        rows[j],
                        player,
                        q,
                        Terrain::Capital,
                    );
            assert(is_own_building(rows[k], player, p, Terrain::Capital));
        }
    }
}

/// One more row adds to the income what the player's building in it earns, and to the airports one
/// if it is an airport of the player's in range.
pub proof fn law_own_buildings_earn_and_count(
    rows: Seq<BoardRow>,
    registry: MasterDataRegistry,
    player: PlayerId,
    in_range: Seq<GridPosition>,
    n: int,
)
    requires
        0 < n <= rows.len(),
    ensures
        ({
            let row = rows[n - 1];
            let own = row.position is Some && row.property is Some && row.property->0.owner_id
                == Some(player);
            let airport = own && row.property->0.terrain == Terrain::Airport && in_range.contains(
                row.position->0,
            );
            let income = income_of(rows, registry, player, n - 1) + (if own {
                registry.income(row.property->0.terrain) as int
            } else {
                0
            });
            let airports = airports_of(rows, player, in_range, n - 1) + (if airport {
                1int
            } else {
                0
            });
            &&& income_of(rows, registry, player, 0) == 0
            &&& airports_of(rows, player, in_range, 0) == 0
            &&& income_of(rows, registry, player, n) == (if income > u32::MAX {
                u32::MAX as int
            } else {
                income
            })
            &&& airports_of(rows, player, in_range, n) == (if airports > u32::MAX {
                u32::MAX as int
            } else {
                airports
            })
        }),
{
}

/// The facilities on offer are exactly the player's buildings that build something, are in range,
/// and have nothing on them.
pub proof fn law_all_free_facilities_are_offered(
    rows: Seq<BoardRow>,
    registry: MasterDataRegistry,
    player: PlayerId,
    occupied: Seq<GridPosition>,
    in_range: Seq<GridPosition>,
    n: int,
    site: (GridPosition, Terrain),
)
    requires
        0 <= n <= rows.len(),
    ensures
        facilities_of(rows, registry, player, occupied, in_range, n).contains(site) <==> {
            &&& registry.builds(site.1)
            &&& !occupied.contains(site.0)
            &&& in_range.contains(site.0)
            &&& exists|k: int|
                0 <= k < n && is_own_building(#[trigger] rows[k], player, site.0, site.1)
        },
    decreases n,
{
    if n > 0 {
        law_all_free_facilities_are_offered(
            rows,
            registry,
            player,
            occupied,
            in_range,
            n - 1,
            site,
        );
        let rest = facilities_of(rows, registry, player, occupied, in_range, n - 1);
        if let Some(last) = owned_site(rows[n - 1], player) {
            lemma_pushed(rest, last, site);
        }
        if exists|k: int|
            0 <= k < n - 1 && is_own_building(#[trigger] rows[k], player, site.0, site.1) {
            let k = choose|k: int|
                0 <= k < n - 1 && is_own_building(#[trigger] rows[k], player, site.0, site.1);
            assert(is_own_building(rows[k], player, site.0, site.1));
        }
        if is_own_building(rows[n - 1], player, site.0, site.1) {
            assert(owned_site(rows[n - 1], player) == Some(site));
        }
    }
}

/// Capable are exactly the units one of whose weapons does damage to one of the targets.
pub proof fn law_capable_units_harm_a_target(
    chart: DamageChart,
    units: Seq<CombatCapabilitySnapshot>,
    targets: Seq<UnitType>,
    n: int,
    u: CombatCapabilitySnapshot,
)
    requires
        0 <= n <= units.len(),
    ensures
        capable_among(chart, units, targets, n).contains(u) <==> {
            &&& exists|k: int| 0 <= k < n && #[trigger] units[k] == u
            &&& exists|t: int|
                0 <= t < targets.len() && chart.best(u.unit_type, #[trigger] targets[t]) >= 1
        },
    decreases n,
{
    if n > 0 {
        law_capable_units_harm_a_target(chart, units, targets, n - 1, u);
        lemma_pushed(capable_among(chart, units, targets, n - 1), units[n - 1], u);
        assert(chart.harms(u.unit_type, targets) <==> exists|t: int|
            0 <= t < targets.len() && chart.best(u.unit_type, #[trigger] targets[t]) >= 1) by {
            if chart.harms(u.unit_type, targets) {
                let t = choose|t: int|
                    0 <= t < targets.len() && chart.best(u.unit_type, #[trigger] targets[t]) > 0;
                assert(chart.best(u.unit_type, targets[t]) >= 1);
            }
        }
        if exists|k: int| 0 <= k < n - 1 && #[trigger] units[k] == u {
            let k = choose|k: int| 0 <= k < n - 1 && #[trigger] units[k] == u;
            assert(units[k] == u);
        }
    }
}

/// Stats that say the same agree in everything.
pub proof fn law_same_stats_agree(a: UnitStats, b: UnitStats)
    ensures
        a.same_as(b) <==> {
            &&& a.unit_type == b.unit_type && a.cost == b.cost
            &&& a.max_movement == b.max_movement && a.movement_type == b.movement_type
            &&& a.max_fuel == b.max_fuel && a.max_ammo1 == b.max_ammo1 && a.max_ammo2 == b.max_ammo2
            &&& a.min_range == b.min_range && a.max_range == b.max_range
            &&& a.can_capture == b.can_capture && a.can_supply == b.can_supply
            &&& a.max_cargo == b.max_cargo && a.loadable_unit_types@ == b.loadable_unit_types@
        },
{
}

/// The occupant is the unit with these stats of the player at the place, with that much room.
pub open spec fn is_occupied_by(
    o: Occupant,
    player: PlayerId,
    p: GridPosition,
    stats: UnitStats,
    room: u32,
) -> bool {
    &&& o.player_id == player && o.position == p && o.unit_type == stats.unit_type
    &&& o.is_transport <==> stats.max_cargo >= 1
    &&& o.loadable_types@ == stats.loadable_unit_types@
    &&& o.free_slots == room
}

/// What the movement rules are told of a unit on the board is what its row says of it, the room in
/// its hold as it is asked for.
pub proof fn law_movement_rules_are_told_the_truth(
    o: Occupant,
    row: BoardRow,
    outside: bool,
    list: Seq<Occupant>,
    units: Seq<BoardRow>,
    i: int,
)
    ensures
        tells_of(o, row, outside) <==> row.faction is Some && row.position is Some
            && row.stats is Some && is_occupied_by(
            o,
            row.faction->0,
            row.position->0,
            row.stats->0,
            free_room(row, outside),
        ),
        describes_unit(o, row) <==> row.faction is Some && row.position is Some && row.stats is Some
            && is_occupied_by(
            o,
            row.faction->0,
            row.position->0,
            row.stats->0,
            room_left(row, row.stats->0),
        ),
        tells_of_all(list, units, outside) && 0 <= i < units.len() ==> list.len() == units.len()
            && tells_of(list[i], units[i], outside),
{
}

/// What the movement rules are told of a known unit is what is known of it.
pub proof fn law_movement_rules_are_told_what_is_known(o: Occupant, unit: UnitModel)
    ensures
        tells_of_unit(o, unit) <==> {
            &&& o.player_id == unit.faction && o.position == unit.position && o.unit_type
                == unit.unit_type
            &&& o.is_transport <==> unit.max_cargo >= 1
            &&& o.loadable_types@ == unit.loadable
            &&& o.free_slots == unit.free_cargo_slots
        },
{
}

/// A listed unit stands where its row says and has the stats of its row.
pub proof fn law_listed_units_are_those_of_the_rows(
    units: Seq<(GridPosition, UnitStats)>,
    rows: Seq<BoardRow>,
    i: int,
)
    requires
        units_are(units, rows),
        0 <= i < rows.len(),
    ensures
        units.len() == rows.len(),
        rows[i].position == Some(units[i].0),
        rows[i].stats is Some && units[i].1.unit_type == rows[i].stats->0.unit_type
            && units[i].1.cost == rows[i].stats->0.cost && units[i].1.max_movement
            == rows[i].stats->0.max_movement && units[i].1.max_cargo == rows[i].stats->0.max_cargo,
        row_positions(rows)[i] == units[i].0,
{
    assert(unit_is(units[i], rows[i]));
}

/// Every operation belongs to the player that it names.
pub proof fn law_operations_belong_to_their_player(
    player_id: PlayerId,
    island_id: IslandId,
    mission_id: EmergencyMissionId,
    squad_id: SquadId,
)
    ensures
        owner_player(OperationOwner::Campaign { player_id, island_id }) == player_id,
        owner_player(OperationOwner::Emergency { player_id, mission_id }) == player_id,
        owner_player(OperationOwner::TacticalSquad { player_id, squad_id }) == player_id,
{
}

/// Islands are numbered from zero in the order in which the first of their tiles is read, and list
/// no tile twice.
pub proof fn law_islands_are_numbered_in_reading_order(
    map: GameMap,
    islands: Seq<Island>,
    i: int,
    j: int,
    k: int,
)
    requires
        describes(map, islands),
        0 <= i < j < islands.len() <= usize::MAX,
        0 <= k < islands[j].tiles.len(),
    ensures
        islands[i].id.0 == i && islands[j].id.0 == j,
        islands[i].tiles.len() > 0,
        islands[j].tiles@.no_duplicates(),
        map.rank(islands[i].tiles@[0]) < map.rank(islands[j].tiles@[k]),
{
    assert(map.rank(islands[j].tiles@[0]) <= map.rank(islands[j].tiles@[k]));
    assert(map.rank(islands[i].tiles[0]) < map.rank(islands[j].tiles[0]));
}

} // verus!
