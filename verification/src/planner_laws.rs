//! What holds of the rating of islands and of the leave to invade them.
use crate::board::{BoardRow, Property};
use crate::grid::{lemma_closest_within, manhattan, GridPosition, Terrain};
use crate::islands::{Island, IslandId};
use crate::master_data::MasterDataRegistry;
use crate::missions::{island_holding, island_numbered};
use crate::objectives::{expected_value, total_income};
use crate::operations_laws::lemma_numbered;
use crate::planner::{
    closest_base, enemy_bases, fighters, has_escort, in_walking_distance, invasion_allowed,
    is_enemy_stronghold, is_escort, is_fighter, is_forbidden, is_wanted, island_distance,
    island_objective, least_distance, own_bases, property_at, site_at, wanted_sites, IslandTarget,
    NO_DISTANCE,
};
use crate::units::{PlayerId, UnitType};
use vstd::prelude::*;

verus! {

/// The row is a unit on the board that counts as a fighting unit: anything but infantry,
/// transports and supply trucks.
pub open spec fn is_combat_unit(row: BoardRow) -> bool {
    row.position is Some && row.faction is Some && row.stats is Some && match row.stats->0.unit_type {
        UnitType::Infantry => false,
        UnitType::Mech => false,
        UnitType::TransportHelicopter => false,
        UnitType::Lander => false,
        UnitType::SupplyTruck => false,
        _ => true,
    }
}

/// The fighting units of the player.
pub open spec fn own_force(rows: Seq<BoardRow>, player: PlayerId) -> Seq<BoardRow> {
    rows.filter(|row: BoardRow| is_combat_unit(row) && row.faction == Some(player))
}

/// The fighting units of everybody else.
pub open spec fn enemy_force(rows: Seq<BoardRow>, player: PlayerId) -> Seq<BoardRow> {
    rows.filter(|row: BoardRow| is_combat_unit(row) && row.faction != Some(player))
}

proof fn lemma_forces(rows: Seq<BoardRow>, player: PlayerId, n: int)
    requires
        0 <= n <= rows.len(),
    ensures
        fighters(rows, player, true, n) == own_force(rows.take(n), player).len(),
        fighters(rows, player, false, n) == enemy_force(rows.take(n), player).len(),
    decreases n,
{
    reveal(Seq::filter);
    let some = rows.take(n);
    if n > 0 {
        lemma_forces(rows, player, n - 1);
        assert(some.drop_last() =~= rows.take(n - 1));
        assert(some.last() == rows[n - 1]);
        assert(is_fighter(rows[n - 1], player, true) <==> is_combat_unit(rows[n - 1]) && rows[n
            - 1].faction == Some(player));
        assert(is_fighter(rows[n - 1], player, false) <==> is_combat_unit(rows[n - 1]) && rows[n
            - 1].faction != Some(player));
    }
}

/// An island on which an enemy builds units may be invaded exactly if a fighting unit of the player
/// is there already, or if the player has at least six fifths of the enemies' fighting units and
/// two more.
pub proof fn law_invasion_needs_an_escort_or_numbers(
    rows: Seq<BoardRow>,
    player: PlayerId,
    tiles: Seq<GridPosition>,
)
    ensures
        invasion_allowed(rows, player, tiles) <==> {
            ||| exists|i: int|
                0 <= i < rows.len() && is_combat_unit(#[trigger] rows[i]) && rows[i].faction
                    == Some(player) && tiles.contains(rows[i].position->0)
            ||| 5 * own_force(rows, player).len() >= 6 * enemy_force(rows, player).len() + 10
        },
{
    let n = rows.len() as int;
    lemma_forces(rows, player, n);
    assert(rows.take(n) =~= rows);
    if has_escort(rows, player, tiles, n) {
        let i = choose|i: int| 0 <= i < n && is_escort(#[trigger] rows[i], player, tiles);
        assert(is_combat_unit(rows[i]) && rows[i].faction == Some(player));
    }
    if exists|i: int|
        0 <= i < rows.len() && is_combat_unit(#[trigger] rows[i]) && rows[i].faction == Some(player)
            && tiles.contains(rows[i].position->0) {
        let i = choose|i: int|
            0 <= i < rows.len() && is_combat_unit(#[trigger] rows[i]) && rows[i].faction == Some(
                player,
            ) && tiles.contains(rows[i].position->0);
        assert(is_escort(rows[i], player, tiles));
    }
}

/// The building in the row is the one at the position: no later row has one there.
pub open spec fn stands_at(rows: Seq<BoardRow>, r: int, p: GridPosition, b: Property) -> bool {
    &&& 0 <= r < rows.len()
    &&& rows[r].position == Some(p)
    &&& rows[r].property == Some(b)
    &&& forall|l: int|
        r < l < rows.len() && (#[trigger] rows[l]).position == Some(p) ==> rows[l].property is None
}

proof fn lemma_site(rows: Seq<BoardRow>, p: GridPosition, n: int)
    requires
        0 <= n <= rows.len(),
        forall|l: int|
            n <= l < rows.len() && (#[trigger] rows[l]).position == Some(p)
                ==> rows[l].property is None,
    ensures
        match site_at(rows, p, n) {
            Some(r) => rows[r].property is Some && stands_at(rows, r, p, rows[r].property->0),
            None => forall|l: int|
                0 <= l < rows.len() && (#[trigger] rows[l]).position == Some(p)
                    ==> rows[l].property is None,
        },
    decreases n,
{
    if n > 0 && !(rows[n - 1].position == Some(p) && rows[n - 1].property is Some) {
        lemma_site(rows, p, n - 1);
    }
}

proof fn lemma_site_found(rows: Seq<BoardRow>, r: int, p: GridPosition, b: Property)
    requires
        stands_at(rows, r, p, b),
    ensures
        site_at(rows, p, rows.len() as int) == Some(r),
        property_at(rows, p) == Some(b),
{
    lemma_site(rows, p, rows.len() as int);
    match site_at(rows, p, rows.len() as int) {
        Some(q) => {
            if q < r {
                assert(rows[r].property is None);
            } else if r < q {
                assert(rows[q].property is None);
            }
        },
        None => {
            assert(rows[r].property is None);
        },
    }
}

/// A factory or capital of the player stands at the position.
pub open spec fn is_own_base(rows: Seq<BoardRow>, player: PlayerId, p: GridPosition) -> bool {
    exists|r: int, b: Property| #[trigger]
        stands_at(rows, r, p, b) && b.owner_id == Some(player) && (b.terrain == Terrain::Factory
            || b.terrain == Terrain::Capital)
}

proof fn lemma_own_bases(rows: Seq<BoardRow>, player: PlayerId, n: int, p: GridPosition)
    requires
        0 <= n <= rows.len(),
    ensures
        own_bases(rows, player, n).contains(p) <==> exists|r: int, b: Property|
            r < n && #[trigger] stands_at(rows, r, p, b) && b.owner_id == Some(player) && (b.terrain
                == Terrain::Factory || b.terrain == Terrain::Capital),
    decreases n,
{
    if n > 0 {
        lemma_own_bases(rows, player, n - 1, p);
        let rest = own_bases(rows, player, n - 1);
        let all = own_bases(rows, player, n);
        let last = rows[n - 1];
        if rest.contains(p) {
            let i = choose|i: int| 0 <= i < rest.len() && rest[i] == p;
            assert(all[i] == p);
            let (r, b) = choose|r: int, b: Property|
                r < n - 1 && #[trigger] stands_at(rows, r, p, b) && b.owner_id == Some(player) && (
                b.terrain == Terrain::Factory || b.terrain == Terrain::Capital);
            assert(r < n && stands_at(rows, r, p, b));
        }
        if let (Some(q), Some(b)) = (last.position, last.property) {
            lemma_site(rows, q, rows.len() as int);
            if site_at(rows, q, rows.len() as int) == Some(n - 1) {
                assert(stands_at(rows, n - 1, q, b));
            }
            if stands_at(rows, n - 1, q, b) {
                lemma_site_found(rows, n - 1, q, b);
            }
            if all.len() > rest.len() {
                assert(all[rest.len() as int] == q);
                if all.contains(p) && !rest.contains(p) {
                    let i = choose|i: int| 0 <= i < all.len() && all[i] == p;
                    if i < rest.len() {
                        assert(rest[i] == p);
                    }
                }
            }
        }
        if exists|r: int, b: Property|
            r < n && #[trigger] stands_at(rows, r, p, b) && b.owner_id == Some(player) && (b.terrain
                == Terrain::Factory || b.terrain == Terrain::Capital) {
            let (r, b) = choose|r: int, b: Property|
                r < n && #[trigger] stands_at(rows, r, p, b) && b.owner_id == Some(player) && (
                b.terrain == Terrain::Factory || b.terrain == Terrain::Capital);
            if r < n - 1 {
                assert(rest.contains(p));
            } else {
                assert(all[rest.len() as int] == p);
            }
        }
    }
}

proof fn lemma_bases(rows: Seq<BoardRow>, player: PlayerId)
    ensures
        forall|p: GridPosition| #[trigger]
            own_bases(rows, player, rows.len() as int).contains(p) <==> is_own_base(
                rows,
                player,
                p,
            ),
{
    assert forall|p: GridPosition| #[trigger]
        own_bases(rows, player, rows.len() as int).contains(p) <==> is_own_base(rows, player, p) by {
        lemma_own_bases(rows, player, rows.len() as int, p);
        if is_own_base(rows, player, p) {
            let (r, b) = choose|r: int, b: Property| #[trigger]
                stands_at(rows, r, p, b) && b.owner_id == Some(player) && (b.terrain
                    == Terrain::Factory || b.terrain == Terrain::Capital);
            assert(r < rows.len() && stands_at(rows, r, p, b));
        }
    }
}

/// The base is one of the player's, and none is nearer to the tile.
pub open spec fn is_nearest_base(
    rows: Seq<BoardRow>,
    player: PlayerId,
    tile: GridPosition,
    b: GridPosition,
) -> bool {
    is_own_base(rows, player, b) && forall|c: GridPosition| #[trigger]
        is_own_base(rows, player, c) ==> manhattan(b, tile) <= manhattan(c, tile)
}

/// The position lies on the island: the first one in the list that has it has the number.
pub open spec fn lies_on(islands: Seq<Island>, id: IslandId, p: GridPosition) -> bool {
    exists|h: int|
        0 <= h < islands.len() && (#[trigger] islands[h]).id == id && islands[h].tiles@.contains(p)
            && forall|l: int| 0 <= l < h ==> !(#[trigger] islands[l]).tiles@.contains(p)
}

proof fn lemma_lies_on(islands: Seq<Island>, id: IslandId, p: GridPosition, i: int)
    requires
        0 <= i <= islands.len(),
        forall|l: int| 0 <= l < i ==> !(#[trigger] islands[l]).tiles@.contains(p),
    ensures
        lies_on(islands, id, p) <==> (island_holding(islands, p, i) matches Some(h)
            && islands[h].id == id),
    decreases islands.len() - i,
{
    if i < islands.len() {
        if !islands[i].tiles@.contains(p) {
            lemma_lies_on(islands, id, p, i + 1);
        } else {
            if lies_on(islands, id, p) {
                let h = choose|h: int|
                    0 <= h < islands.len() && (#[trigger] islands[h]).id == id
                        && islands[h].tiles@.contains(p) && forall|l: int|
                        0 <= l < h ==> !(#[trigger] islands[l]).tiles@.contains(p);
                if i < h {
                    assert(!islands[i].tiles@.contains(p));
                }
                if h < i {
                    assert(!islands[h].tiles@.contains(p));
                }
            }
            if islands[i].id == id {
                assert(islands[i].tiles@.contains(p));
            }
        }
    }
}

/// No transport is needed for what is a short walk away. Where infantry is said to get on foot, a
/// nearest base of the player lies on the same island, at most six steps away; and where every
/// nearest base lies so, it is said.
pub proof fn law_short_walks_need_no_transport(
    rows: Seq<BoardRow>,
    islands: Seq<Island>,
    player: PlayerId,
    target: IslandId,
    tile: GridPosition,
)
    ensures
        ({
            let walks = in_walking_distance(
                islands,
                own_bases(rows, player, rows.len() as int),
                target,
                tile,
            );
            &&& walks ==> exists|b: GridPosition| #[trigger]
                is_nearest_base(rows, player, tile, b) && manhattan(b, tile) <= 6 && lies_on(
                    islands,
                    target,
                    b,
                )
            &&& (exists|b: GridPosition| #[trigger] is_nearest_base(rows, player, tile, b)
                && manhattan(b, tile) <= 6) && (forall|b: GridPosition| #[trigger]
                is_nearest_base(rows, player, tile, b) ==> lies_on(islands, target, b)) ==> walks
        }),
{
    let bases = own_bases(rows, player, rows.len() as int);
    lemma_bases(rows, player);
    lemma_closest_within(bases, tile, NO_DISTANCE as nat, bases.len() as int);
    assert forall|c: GridPosition| #[trigger] is_own_base(rows, player, c) implies bases.contains(
        c,
    ) by {
        assert(bases.contains(c) <==> is_own_base(rows, player, c));
    }
    match closest_base(bases, tile) {
        Some(i) => {
            let b = bases[i];
            assert(bases.contains(b));
            assert(is_nearest_base(rows, player, tile, b));
            lemma_lies_on(islands, target, b, 0);
        },
        None => {
            assert forall|b: GridPosition| #[trigger]
                is_nearest_base(rows, player, tile, b) implies manhattan(b, tile) > 6 by {
                assert(bases.contains(b));
                let k = choose|k: int| 0 <= k < bases.len() && bases[k] == b;
                assert(manhattan(bases[k], tile) >= NO_DISTANCE);
            }
        },
    }
}

/// A building that is not the player's stands on the tile, and infantry does not get there on foot.
pub open spec fn is_to_be_won(
    rows: Seq<BoardRow>,
    islands: Seq<Island>,
    player: PlayerId,
    target: IslandId,
    tile: GridPosition,
) -> bool {
    &&& exists|r: int, b: Property| #[trigger]
        stands_at(rows, r, tile, b) && b.owner_id != Some(player)
    &&& !in_walking_distance(islands, own_bases(rows, player, rows.len() as int), target, tile)
}

proof fn lemma_wanted(
    rows: Seq<BoardRow>,
    islands: Seq<Island>,
    player: PlayerId,
    target: IslandId,
    tile: GridPosition,
)
    ensures
        is_wanted(
            rows,
            islands,
            own_bases(rows, player, rows.len() as int),
            player,
            target,
            tile,
        ) <==> is_to_be_won(rows, islands, player, target, tile),
{
    lemma_site(rows, tile, rows.len() as int);
    if let Some(r) = site_at(rows, tile, rows.len() as int) {
        assert(stands_at(rows, r, tile, rows[r].property->0));
    }
    if exists|r: int, b: Property| #[trigger]
        stands_at(rows, r, tile, b) && b.owner_id != Some(player) {
        let (r, b) = choose|r: int, b: Property| #[trigger]
            stands_at(rows, r, tile, b) && b.owner_id != Some(player);
        lemma_site_found(rows, r, tile, b);
    }
}

/// The tiles of the list on which something is to be won.
pub open spec fn tiles_to_be_won(
    rows: Seq<BoardRow>,
    islands: Seq<Island>,
    player: PlayerId,
    target: IslandId,
    tiles: Seq<GridPosition>,
) -> Seq<GridPosition> {
    tiles.filter(|p: GridPosition| is_to_be_won(rows, islands, player, target, p))
}

proof fn lemma_wanted_sites(
    rows: Seq<BoardRow>,
    islands: Seq<Island>,
    player: PlayerId,
    target: IslandId,
    tiles: Seq<GridPosition>,
    n: int,
)
    requires
        0 <= n <= tiles.len(),
    ensures
        ({
            let sites = wanted_sites(
                rows,
                islands,
                own_bases(rows, player, rows.len() as int),
                player,
                target,
                tiles,
                n,
            );
            let won = tiles_to_be_won(rows, islands, player, target, tiles.take(n));
            &&& sites.len() == won.len()
            &&& forall|i: int|
                0 <= i < sites.len() ==> (#[trigger] sites[i]).0 == won[i] && property_at(
                    rows,
                    won[i],
                ) is Some && property_at(rows, won[i])->0.terrain == sites[i].1
        }),
    decreases n,
{
    reveal(Seq::filter);
    let some = tiles.take(n);
    if n > 0 {
        lemma_wanted_sites(rows, islands, player, target, tiles, n - 1);
        assert(some.drop_last() =~= tiles.take(n - 1));
        assert(some.last() == tiles[n - 1]);
        lemma_wanted(rows, islands, player, target, tiles[n - 1]);
    }
}

/// An enemy builds units on the tile.
pub open spec fn is_enemy_base(rows: Seq<BoardRow>, tile: GridPosition) -> bool {
    exists|r: int, b: Property| #[trigger]
        stands_at(rows, r, tile, b) && b.owner_id is Some && (b.terrain == Terrain::Factory
            || b.terrain == Terrain::Capital)
}

proof fn lemma_enemy_bases(
    rows: Seq<BoardRow>,
    sites: Seq<(GridPosition, Terrain)>,
    n: int,
)
    requires
        0 <= n <= sites.len(),
        forall|i: int|
            0 <= i < sites.len() ==> property_at(rows, (#[trigger] sites[i]).0) is Some
                && property_at(rows, sites[i].0)->0.terrain == sites[i].1,
    ensures
        enemy_bases(rows, sites, n) == sites.take(n).filter(
            |s: (GridPosition, Terrain)| is_enemy_base(rows, s.0),
        ).len(),
    decreases n,
{
    reveal(Seq::filter);
    let some = sites.take(n);
    if n > 0 {
        lemma_enemy_bases(rows, sites, n - 1);
        assert(some.drop_last() =~= sites.take(n - 1));
        assert(some.last() == sites[n - 1]);
        let tile = sites[n - 1].0;
        lemma_site(rows, tile, rows.len() as int);
        if let Some(r) = site_at(rows, tile, rows.len() as int) {
            assert(stands_at(rows, r, tile, rows[r].property->0));
        }
        if is_enemy_base(rows, tile) {
            let (r, b) = choose|r: int, b: Property| #[trigger]
                stands_at(rows, r, tile, b) && b.owner_id is Some && (b.terrain == Terrain::Factory
                    || b.terrain == Terrain::Capital);
            lemma_site_found(rows, r, tile, b);
        }
    }
}

proof fn lemma_least_distance(
    bases: Seq<GridPosition>,
    sites: Seq<(GridPosition, Terrain)>,
    n: int,
)
    requires
        0 <= n <= sites.len(),
    ensures
        match least_distance(bases, sites, n) {
            Some(d) => (exists|i: int, b: int|
                0 <= i < n && 0 <= b < bases.len() && manhattan(
                    #[trigger] bases[b],
                    (#[trigger] sites[i]).0,
                ) == d) && (forall|i: int, b: int|
                0 <= i < n && 0 <= b < bases.len() ==> d <= manhattan(
                    #[trigger] bases[b],
                    (#[trigger] sites[i]).0,
                )),
            None => forall|i: int, b: int|
                0 <= i < n && 0 <= b < bases.len() ==> manhattan(
                    #[trigger] bases[b],
                    (#[trigger] sites[i]).0,
                ) >= NO_DISTANCE,
        },
    decreases n,
{
    if n > 0 {
        lemma_least_distance(bases, sites, n - 1);
        let tile = sites[n - 1].0;
        lemma_closest_within(bases, tile, NO_DISTANCE as nat, bases.len() as int);
        let rest = least_distance(bases, sites, n - 1);
        if let Some(d) = rest {
            let (i, b) = choose|i: int, b: int|
                0 <= i < n - 1 && 0 <= b < bases.len() && manhattan(
                    #[trigger] bases[b],
                    (#[trigger] sites[i]).0,
                ) == d;
            assert(manhattan(bases[b], sites[i].0) == d);
            assert(d < NO_DISTANCE) by {
                lemma_least_below(bases, sites, n - 1);
            }
        }
        if let Some(c) = closest_base(bases, tile) {
            assert(manhattan(bases[c], sites[n - 1].0) < NO_DISTANCE);
        }
    }
}

proof fn lemma_least_below(
    bases: Seq<GridPosition>,
    sites: Seq<(GridPosition, Terrain)>,
    n: int,
)
    requires
        0 <= n <= sites.len(),
    ensures
        least_distance(bases, sites, n) matches Some(d) ==> d < NO_DISTANCE,
    decreases n,
{
    if n > 0 {
        lemma_least_below(bases, sites, n - 1);
        lemma_closest_within(bases, sites[n - 1].0, NO_DISTANCE as nat, bases.len() as int);
    }
}

/// What an island is worth. It needs one infantry unit for each tile on which something is to be
/// won, and one where there is none. It is a stronghold exactly if an enemy builds units on one of
/// those tiles. Its score is the income of those tiles by the way to them and by the enemies'
/// production there; an island without such tiles scores nothing.
pub proof fn law_island_is_rated_by_what_is_to_be_won(
    rows: Seq<BoardRow>,
    islands: Seq<Island>,
    registry: MasterDataRegistry,
    player: PlayerId,
    island: Island,
)
    requires
        island.tiles.len() <= u32::MAX,
    ensures
        ({
            let bases = own_bases(rows, player, rows.len() as int);
            let objective = island_objective(rows, islands, registry, bases, player, island);
            let won = tiles_to_be_won(rows, islands, player, island.id, island.tiles@);
            let enemies = won.filter(|p: GridPosition| is_enemy_base(rows, p));
            &&& objective.target_island == island.id
            &&& won.len() > 0 ==> objective.needed_infantry.0 == won.len()
            &&& won.len() == 0 ==> objective.needed_infantry.0 == 1 && objective.priority_score.0
                == 0
            &&& is_enemy_stronghold(rows, islands, bases, player, island) <==> exists|i: int|
                0 <= i < won.len() && is_enemy_base(rows, #[trigger] won[i])
            &&& won.len() > 0 ==> exists|sites: Seq<(GridPosition, Terrain)>, distance: nat|
                {
                    &&& sites.len() == won.len()
                    &&& forall|i: int|
                        0 <= i < sites.len() ==> (#[trigger] sites[i]).0 == won[i] && exists|
                            r: int,
                            b: Property,
                        | #[trigger]
                            stands_at(rows, r, won[i], b) && b.terrain == sites[i].1
                    &&& #[trigger] is_way_to(rows, player, won, distance)
                    &&& objective.priority_score.0 == expected_value(
                        #[trigger] total_income(sites, registry, sites.len() as int),
                        distance as int,
                        enemies.len() as int,
                    )
                }
        }),
{
    let bases = own_bases(rows, player, rows.len() as int);
    let tiles = island.tiles@;
    let n = tiles.len() as int;
    let sites = wanted_sites(rows, islands, bases, player, island.id, tiles, n);
    let won = tiles_to_be_won(rows, islands, player, island.id, tiles);
    let enemies = won.filter(|p: GridPosition| is_enemy_base(rows, p));
    assert(tiles.take(n) =~= tiles);
    lemma_wanted_sites(rows, islands, player, island.id, tiles, n);
    lemma_filter_shorter(tiles, |p: GridPosition| is_to_be_won(rows, islands, player, island.id, p));
    let count = sites.len() as int;
    lemma_enemy_bases(rows, sites, count);
    assert(sites.take(count) =~= sites);
    lemma_same_count(rows, sites, won);
    let bad = sites.filter(|s: (GridPosition, Terrain)| is_enemy_base(rows, s.0));
    lemma_some_kept(won, |p: GridPosition| is_enemy_base(rows, p));
    if count > 0 {
        let distance = island_distance(bases, sites);
        lemma_least_distance(bases, sites, count);
        lemma_bases(rows, player);
        assert forall|c: GridPosition| #[trigger]
            is_own_base(rows, player, c) implies bases.contains(c) by {
            assert(bases.contains(c) <==> is_own_base(rows, player, c));
        }
        assert(is_way_to(rows, player, won, distance)) by {
            match least_distance(bases, sites, count) {
                Some(d) => {
                    let (i, b) = choose|i: int, b: int|
                        0 <= i < count && 0 <= b < bases.len() && manhattan(
                            #[trigger] bases[b],
                            (#[trigger] sites[i]).0,
                        ) == d;
                    assert(bases.contains(bases[b]));
                    assert(is_own_base(rows, player, bases[b]) && manhattan(bases[b], won[i])
                        == distance);
                    lemma_least_below(bases, sites, count);
                    assert forall|c: GridPosition, j: int| #[trigger]
                        is_own_base(rows, player, c) && 0 <= j < won.len() implies distance
                        <= manhattan(c, #[trigger] won[j]) by {
                        let k = choose|k: int| 0 <= k < bases.len() && bases[k] == c;
                        assert(distance <= manhattan(bases[k], sites[j].0));
                    }
                },
                None => {
                    assert forall|c: GridPosition, j: int| #[trigger]
                        is_own_base(rows, player, c) && 0 <= j < won.len() implies manhattan(
                        c,
                        #[trigger] won[j],
                    ) >= 0x7fff_ffff by {
                        let k = choose|k: int| 0 <= k < bases.len() && bases[k] == c;
                        assert(manhattan(bases[k], sites[j].0) >= NO_DISTANCE);
                    }
                },
            }
        }
        assert forall|i: int| 0 <= i < sites.len() implies (#[trigger] sites[i]).0 == won[i]
            && exists|r: int, b: Property| #[trigger]
            stands_at(rows, r, won[i], b) && b.terrain == sites[i].1 by {
            lemma_site(rows, won[i], rows.len() as int);
            if let Some(r) = site_at(rows, won[i], rows.len() as int) {
                assert(stands_at(rows, r, won[i], rows[r].property->0));
            }
        }
        let income = total_income(sites, registry, count);
        assert(island_objective(rows, islands, registry, bases, player, island).priority_score.0
            == expected_value(income, distance as int, enemies.len() as int));
    }
}

/// The way to the tiles: the least distance between one of them and a base of the player; ten
/// where there is no base or all are too far to count.
pub open spec fn is_way_to(
    rows: Seq<BoardRow>,
    player: PlayerId,
    tiles: Seq<GridPosition>,
    distance: nat,
) -> bool {
    ||| {
        &&& distance < 0x7fff_ffff
        &&& exists|b: GridPosition, i: int| #[trigger]
            is_own_base(rows, player, b) && 0 <= i < tiles.len() && manhattan(
                b,
                #[trigger] tiles[i],
            ) == distance
        &&& forall|b: GridPosition, i: int| #[trigger]
            is_own_base(rows, player, b) && 0 <= i < tiles.len() ==> distance <= manhattan(
                b,
                #[trigger] tiles[i],
            )
    }
    ||| {
        &&& distance == 10
        &&& forall|b: GridPosition, i: int| #[trigger]
            is_own_base(rows, player, b) && 0 <= i < tiles.len() ==> manhattan(
                b,
                #[trigger] tiles[i],
            ) >= 0x7fff_ffff
    }
}

proof fn lemma_filter_shorter<T>(s: Seq<T>, keep: spec_fn(T) -> bool)
    ensures
        s.filter(keep).len() <= s.len(),
    decreases s.len(),
{
    reveal(Seq::filter);
    if s.len() > 0 {
        lemma_filter_shorter(s.drop_last(), keep);
    }
}

proof fn lemma_some_kept<T>(s: Seq<T>, keep: spec_fn(T) -> bool)
    ensures
        s.filter(keep).len() > 0 <==> exists|i: int| 0 <= i < s.len() && keep(#[trigger] s[i]),
    decreases s.len(),
{
    reveal(Seq::filter);
    if s.len() > 0 {
        let rest = s.drop_last();
        lemma_some_kept(rest, keep);
        if exists|i: int| 0 <= i < rest.len() && keep(#[trigger] rest[i]) {
            let i = choose|i: int| 0 <= i < rest.len() && keep(#[trigger] rest[i]);
            assert(s[i] == rest[i]);
        }
        if exists|i: int| 0 <= i < s.len() && keep(#[trigger] s[i]) {
            let i = choose|i: int| 0 <= i < s.len() && keep(#[trigger] s[i]);
            if i < rest.len() {
                assert(rest[i] == s[i]);
            }
        }
        if keep(s.last()) {
            assert(keep(s[s.len() - 1]));
        }
    }
}

proof fn lemma_same_count(
    rows: Seq<BoardRow>,
    sites: Seq<(GridPosition, Terrain)>,
    won: Seq<GridPosition>,
)
    requires
        sites.len() == won.len(),
        forall|i: int| 0 <= i < sites.len() ==> (#[trigger] sites[i]).0 == won[i],
    ensures
        sites.filter(|s: (GridPosition, Terrain)| is_enemy_base(rows, s.0)).len() == won.filter(
            |p: GridPosition| is_enemy_base(rows, p),
        ).len(),
    decreases sites.len(),
{
    reveal(Seq::filter);
    if sites.len() > 0 {
        let fewer = sites.drop_last();
        let less = won.drop_last();
        assert forall|i: int| 0 <= i < fewer.len() implies (#[trigger] fewer[i]).0 == less[i] by {
            assert(sites[i].0 == won[i]);
        }
        lemma_same_count(rows, fewer, less);
        assert(sites.last().0 == won.last());
    }
}

/// A stronghold is left alone unless the invasion of its island is allowed; any other island may
/// be gone to. A stronghold on no island is left alone.
pub proof fn law_strongholds_are_left_alone_without_force(
    rows: Seq<BoardRow>,
    islands: Seq<Island>,
    player: PlayerId,
    target: IslandTarget,
    h: int,
)
    ensures
        ({
            let id = target.objective.target_island;
            let r = is_forbidden(rows, islands, player, target);
            &&& !target.stronghold ==> !r
            &&& target.stronghold && 0 <= h < islands.len() && islands[h].id == id && (forall|
                l: int,
            | 0 <= l < h ==> (#[trigger] islands[l]).id != id) ==> (r <==> !invasion_allowed(
                rows,
                player,
                islands[h].tiles@,
            ))
            &&& target.stronghold && (forall|l: int|
                0 <= l < islands.len() ==> (#[trigger] islands[l]).id != id) ==> r
        }),
{
    let id = target.objective.target_island;
    lemma_numbered(islands, id, 0);
    if let Some(k) = island_numbered(islands, id, 0) {
        if 0 <= h < islands.len() && islands[h].id == id && k < h {
            assert(islands[k].id == id);
        }
    }
}

} // verus!
