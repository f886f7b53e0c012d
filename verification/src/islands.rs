//! Islands: the connected land masses of a map.
use crate::grid::{contains_position, GameMap, GridPosition, Terrain};
use vstd::prelude::*;

verus! {

/// The number of an island, counted from zero in the order in which the map is read.
#[derive(Clone, Copy, Debug, PartialEq, Eq, Hash, Structural)]
pub struct IslandId(pub usize);

/// One island. No tile is listed twice.
#[derive(Clone, Debug)]
pub struct Island {
    pub id: IslandId,
    pub tiles: Vec<GridPosition>,
}

/// All islands of a map.
#[derive(Clone, Debug)]
pub struct IslandMap {
    pub islands: Vec<Island>,
}

/// The position lies on the map and is not sea.
pub open spec fn is_land(map: GameMap, p: GridPosition) -> bool {
    map.terrain_at(p) matches Some(t) && t != Terrain::Sea
}

/// A walk over land from tile to touching tile.
pub open spec fn is_land_path(map: GameMap, path: Seq<GridPosition>) -> bool {
    &&& path.len() > 0
    &&& forall|i: int| 0 <= i < path.len() ==> is_land(map, #[trigger] path[i])
    &&& forall|i: int, j: int|
        0 <= i && j == i + 1 && j < path.len() ==> map.touches(#[trigger] path[i], #[trigger] path[j])
}

/// The walk leads from `p` to `q`.
pub open spec fn leads(map: GameMap, path: Seq<GridPosition>, p: GridPosition, q: GridPosition) -> bool {
    is_land_path(map, path) && path[0] == p && path[path.len() - 1] == q
}

/// The two tiles are joined by a walk over land.
pub open spec fn joined(map: GameMap, p: GridPosition, q: GridPosition) -> bool {
    exists|path: Seq<GridPosition>| leads(map, path, p, q)
}

proof fn lemma_joined_self(map: GameMap, p: GridPosition)
    requires
        is_land(map, p),
    ensures
        joined(map, p, p),
{
    assert(leads(map, seq![p], p, p));
}

proof fn lemma_joined_land(map: GameMap, p: GridPosition, q: GridPosition)
    requires
        joined(map, p, q),
    ensures
        is_land(map, p),
        is_land(map, q),
{
    let path = choose|path: Seq<GridPosition>| leads(map, path, p, q);
    assert(is_land(map, path[0]) && is_land(map, path[path.len() - 1]));
}

proof fn lemma_joined_step(map: GameMap, p: GridPosition, q: GridPosition, r: GridPosition)
    requires
        joined(map, p, q),
        map.touches(q, r),
        is_land(map, r),
    ensures
        joined(map, p, r),
{
    let path = choose|path: Seq<GridPosition>| leads(map, path, p, q);
    let longer = path.push(r);
    assert(longer[0] == p);
    assert(leads(map, longer, p, r));
}

proof fn lemma_joined_transitive(map: GameMap, p: GridPosition, q: GridPosition, r: GridPosition)
    requires
        joined(map, p, q),
        joined(map, q, r),
    ensures
        joined(map, p, r),
{
    let a = choose|path: Seq<GridPosition>| leads(map, path, p, q);
    let b = choose|path: Seq<GridPosition>| leads(map, path, q, r);
    let c = a + b.drop_first();
    assert forall|i: int| 0 <= i < c.len() implies is_land(map, #[trigger] c[i]) by {
        if i >= a.len() {
            assert(c[i] == b[i - a.len() + 1]);
        }
    }
    assert forall|i: int, j: int| 0 <= i && j == i + 1 && j < c.len() implies map.touches(
        #[trigger] c[i],
        #[trigger] c[j],
    ) by {
        if j < a.len() {
            assert(c[i] == a[i] && c[j] == a[j]);
        } else {
            assert(c[j] == b[j - a.len() + 1]);
            if i >= a.len() {
                assert(c[i] == b[i - a.len() + 1]);
            } else {
                assert(c[i] == a[a.len() - 1]);
                assert(b[0] == q);
            }
        }
    }
    assert(c[0] == p);
    if b.len() > 1 {
        assert(c[c.len() - 1] == b[b.len() - 1]);
    } else {
        assert(c =~= a);
    }
    assert(leads(map, c, p, r));
}

proof fn lemma_land_contained(map: GameMap, p: GridPosition)
    requires
        is_land(map, p),
    ensures
        map.contains(p),
{
}

proof fn lemma_joined_symmetric(map: GameMap, p: GridPosition, q: GridPosition)
    requires
        joined(map, p, q),
    ensures
        joined(map, q, p),
{
    let a = choose|path: Seq<GridPosition>| leads(map, path, p, q);
    let n = a.len();
    let b = Seq::new(n, |i: int| a[n - 1 - i]);
    assert forall|i: int, j: int| 0 <= i && j == i + 1 && j < b.len() implies map.touches(
        #[trigger] b[i],
        #[trigger] b[j],
    ) by {
        assert(b[i] == a[n - 1 - i] && b[j] == a[n - 1 - j]);
        assert(map.touches(a[n - 1 - j], a[n - 1 - i]));
        lemma_land_contained(map, a[n - 1 - j]);
        map.lemma_touches_symmetric(a[n - 1 - j], a[n - 1 - i]);
    }
    assert(leads(map, b, q, p));
}

/// A set of tiles that a walk cannot leave holds the whole walk.
proof fn lemma_closed_holds_path(map: GameMap, tiles: Seq<GridPosition>, path: Seq<GridPosition>, k: int)
    requires
        is_land_path(map, path),
        tiles.contains(path[0]),
        forall|p: GridPosition, q: GridPosition|
            tiles.contains(p) && #[trigger] map.touches(p, q) && is_land(map, q) ==> tiles.contains(q),
        0 <= k < path.len(),
    ensures
        tiles.contains(path[k]),
    decreases k,
{
    if k > 0 {
        lemma_closed_holds_path(map, tiles, path, k - 1);
        assert(map.touches(path[k - 1], path[k]));
    }
}

/// The tiles make up one whole land mass.
pub open spec fn is_component(map: GameMap, tiles: Seq<GridPosition>) -> bool {
    &&& tiles.len() > 0
    &&& tiles.no_duplicates()
    &&& forall|p: GridPosition| #[trigger] tiles.contains(p) <==> joined(map, tiles[0], p)
}

/// No tile of the island comes before its first one when the map is read row by row.
pub open spec fn starts_first(map: GameMap, tiles: Seq<GridPosition>) -> bool {
    forall|i: int| 0 <= i < tiles.len() ==> map.rank(tiles[0]) <= map.rank(#[trigger] tiles[i])
}

/// The islands of the list are whole land masses, numbered from zero in the order in
/// which their first tiles are read.
pub open spec fn are_islands(map: GameMap, islands: Seq<Island>) -> bool {
    &&& forall|i: int| 0 <= i < islands.len() ==> (#[trigger] islands[i]).id == IslandId(i as usize)
    &&& forall|i: int|
        0 <= i < islands.len() ==> is_component(map, (#[trigger] islands[i]).tiles@)
    &&& forall|i: int|
        0 <= i < islands.len() ==> starts_first(map, (#[trigger] islands[i]).tiles@)
    &&& forall|i: int, j: int|
        0 <= i < j < islands.len() ==> map.rank((#[trigger] islands[i]).tiles[0]) < map.rank(
            (#[trigger] islands[j]).tiles[0],
        )
}

/// Some island holds the tile.
pub open spec fn some_island_has(islands: Seq<Island>, p: GridPosition) -> bool {
    exists|i: int| 0 <= i < islands.len() && (#[trigger] islands[i]).tiles@.contains(p)
}

/// The islands of the map: whole land masses, numbered in reading order, that cover all land.
pub open spec fn describes(map: GameMap, islands: Seq<Island>) -> bool {
    &&& are_islands(map, islands)
    &&& forall|p: GridPosition| is_land(map, p) ==> #[trigger] some_island_has(islands, p)
}

/// Every land tile belongs to exactly one island, and no other position belongs to any.
pub proof fn law_land_belongs_to_one_island(map: GameMap, islands: Seq<Island>, p: GridPosition)
    requires
        describes(map, islands),
    ensures
        some_island_has(islands, p) <==> is_land(map, p),
        forall|i: int, j: int|
            0 <= i < islands.len() && 0 <= j < islands.len() && (
            #[trigger] islands[i]).tiles@.contains(p) && (#[trigger] islands[j]).tiles@.contains(p)
                ==> i == j,
{
    if some_island_has(islands, p) {
        let i = choose|i: int| 0 <= i < islands.len() && (#[trigger] islands[i]).tiles@.contains(p);
        lemma_joined_land(map, islands[i].tiles[0], p);
    }
    assert forall|i: int, j: int|
        0 <= i < islands.len() && 0 <= j < islands.len() && (
        #[trigger] islands[i]).tiles@.contains(p) && (#[trigger] islands[j]).tiles@.contains(
            p,
        ) implies i == j by {
        let a = islands[i].tiles@;
        let b = islands[j].tiles@;
        lemma_joined_symmetric(map, b[0], p);
        lemma_joined_transitive(map, a[0], p, b[0]);
        assert(a.contains(b[0]));
        lemma_joined_symmetric(map, a[0], p);
        lemma_joined_transitive(map, b[0], p, a[0]);
        assert(b.contains(a[0]));
        let k = choose|k: int| 0 <= k < a.len() && a[k] == b[0];
        let l = choose|l: int| 0 <= l < b.len() && b[l] == a[0];
        assert(map.rank(a[0]) <= map.rank(a[k]));
        assert(map.rank(b[0]) <= map.rank(b[l]));
    }
}

/// Two tiles belong to the same island exactly if a walk over land joins them.
pub proof fn law_same_island_iff_joined(
    map: GameMap,
    islands: Seq<Island>,
    i: int,
    p: GridPosition,
    q: GridPosition,
)
    requires
        describes(map, islands),
        0 <= i < islands.len(),
        islands[i].tiles@.contains(p),
    ensures
        islands[i].tiles@.contains(q) <==> joined(map, p, q),
{
    let first = islands[i].tiles[0];
    lemma_joined_symmetric(map, first, p);
    if islands[i].tiles@.contains(q) {
        lemma_joined_transitive(map, p, first, q);
    }
    if joined(map, p, q) {
        lemma_joined_transitive(map, first, p, q);
    }
}

/// How many of the first `n` flags are not set.
spec fn unset(flags: Seq<bool>, n: int) -> nat
    decreases n,
{
    if n <= 0 {
        0
    } else {
        unset(flags, n - 1) + (if flags[n - 1] {
            0nat
        } else {
            1nat
        })
    }
}

proof fn lemma_unset_set(flags: Seq<bool>, i: int, n: int)
    requires
        0 <= i < flags.len(),
        0 <= n <= flags.len(),
        !flags[i],
    ensures
        unset(flags.update(i, true), n) == unset(flags, n) - (if i < n {
            1int
        } else {
            0int
        }),
    decreases n,
{
    if n > 0 {
        lemma_unset_set(flags, i, n - 1);
    }
}

/// A land tile is marked exactly if one of the islands so far, or the one being filled, holds it.
spec fn marks(map: GameMap, visited: Seq<bool>, islands: Seq<Island>, tiles: Seq<GridPosition>) -> bool {
    &&& visited.len() == map.tiles.len()
    &&& forall|p: GridPosition|
        is_land(map, p) ==> (visited[#[trigger] map.rank(p)] <==> (some_island_has(islands, p)
            || tiles.contains(p)))
}

/// What holds of the tiles of an island while it is being filled: the neighbours of the first
/// `head` tiles are all in.
spec fn filling(map: GameMap, islands: Seq<Island>, tiles: Seq<GridPosition>, head: int) -> bool {
    &&& tiles.len() > 0
    &&& tiles.no_duplicates()
    &&& forall|i: int| 0 <= i < tiles.len() ==> joined(map, tiles[0], #[trigger] tiles[i])
    &&& forall|i: int| 0 <= i < tiles.len() ==> !some_island_has(islands, #[trigger] tiles[i])
    &&& forall|i: int, q: GridPosition|
        0 <= i < head && #[trigger] map.touches(tiles[i], q) && is_land(map, q) ==> tiles.contains(q)
}

proof fn lemma_neighbour_not_in_earlier(
    map: GameMap,
    islands: Seq<Island>,
    t: GridPosition,
    q: GridPosition,
)
    requires
        are_islands(map, islands),
        is_land(map, t),
        is_land(map, q),
        map.touches(t, q),
        !some_island_has(islands, t),
    ensures
        !some_island_has(islands, q),
{
    if some_island_has(islands, q) {
        let i = choose|i: int| 0 <= i < islands.len() && (#[trigger] islands[i]).tiles@.contains(q);
        lemma_land_contained(map, t);
        map.lemma_touches_symmetric(t, q);
        lemma_joined_step(map, islands[i].tiles[0], q, t);
        assert(islands[i].tiles@.contains(t));
    }
}

proof fn lemma_filled(map: GameMap, islands: Seq<Island>, tiles: Seq<GridPosition>)
    requires
        filling(map, islands, tiles, tiles.len() as int),
    ensures
        is_component(map, tiles),
{
    assert forall|p: GridPosition, q: GridPosition|
        tiles.contains(p) && #[trigger] map.touches(p, q) && is_land(map, q) implies tiles.contains(
        q,
    ) by {
        let i = choose|i: int| 0 <= i < tiles.len() && tiles[i] == p;
        assert(map.touches(tiles[i], q));
    }
    assert forall|p: GridPosition| #[trigger] tiles.contains(p) <==> joined(map, tiles[0], p) by {
        if tiles.contains(p) {
            let i = choose|i: int| 0 <= i < tiles.len() && tiles[i] == p;
            assert(joined(map, tiles[0], tiles[i]));
        }
        if joined(map, tiles[0], p) {
            let path = choose|path: Seq<GridPosition>| leads(map, path, tiles[0], p);
            assert(tiles.contains(tiles[0]));
            lemma_closed_holds_path(map, tiles, path, path.len() - 1);
        }
    }
}

impl IslandMap {
    /// Finds the land masses: from the first unmarked land tile in reading order the whole mass is
    /// filled, again and again until the map has been read.
    pub fn analyze(map: &GameMap) -> (r: IslandMap)
        requires
            map.wf(),
        ensures
            describes(*map, r.islands@),
    {
        let mut visited: Vec<bool> = Vec::new();
        let count: usize = map.tiles.len();
        let mut k: usize = 0;
        while k < count
            invariant
                k <= count,
                visited.len() == k,
                forall|i: int| 0 <= i < k ==> !visited[i],
            decreases count - k,
        {
            visited.push(false);
            k += 1;
        }
        let mut islands: Vec<Island> = Vec::new();
        proof {
            assert forall|p: GridPosition| is_land(*map, p) implies (visited@[#[trigger] map.rank(
                p,
            )] <==> (some_island_has(islands@, p) || Seq::<GridPosition>::empty().contains(p))) by {
                map.lemma_rank_in_range(p);
            }
        }
        let mut y: usize = 0;
        while y < map.height
            invariant
                map.wf(),
                y <= map.height,
                islands.len() <= y * map.width,
                are_islands(*map, islands@),
                marks(*map, visited@, islands@, Seq::empty()),
                forall|p: GridPosition|
                    is_land(*map, p) && p.y < y ==> #[trigger] some_island_has(islands@, p),
                forall|i: int|
                    0 <= i < islands.len() ==> map.rank((#[trigger] islands[i]).tiles[0]) < y
                        * map.width,
            decreases map.height - y,
        {
            let mut x: usize = 0;
            proof {
                let (yy, w, h) = (y as int, map.width as int, map.height as int);
                assert(yy * w + w <= w * h) by (nonlinear_arith)
                    requires
                        0 <= yy < h,
                        0 <= w,
                ;
                assert((yy + 1) * w == yy * w + w) by (nonlinear_arith);
            }
            while x < map.width
                invariant
                    map.wf(),
                    y < map.height,
                    x <= map.width,
                    y * map.width + map.width <= map.tiles.len(),
                    islands.len() <= y * map.width + x,
                    are_islands(*map, islands@),
                    marks(*map, visited@, islands@, Seq::empty()),
                    forall|p: GridPosition|
                        is_land(*map, p) && (p.y < y || (p.y == y && p.x < x))
                            ==> #[trigger] some_island_has(islands@, p),
                    forall|i: int|
                        0 <= i < islands.len() ==> map.rank((#[trigger] islands[i]).tiles[0]) < y
                            * map.width + x,
                decreases map.width - x,
            {
                let seed = GridPosition { x, y };
                let index: usize = map.index_of(seed);
                let land: bool = map.tiles[index] != Terrain::Sea;
                assert(land == is_land(*map, seed));
                if !visited[index] && land {
                    proof {
                        assert(!some_island_has(islands@, seed));
                    }
                    let ghost before = visited@;
                    let tiles = Self::fill(map, &mut visited, &islands, seed);
                    let ghost earlier = islands@;
                    proof {
                        assert forall|i: int| 0 <= i < tiles@.len() implies map.rank(tiles@[0])
                            <= map.rank(#[trigger] tiles@[i]) by {
                            let t = tiles@[i];
                            assert(tiles@.contains(t));
                            lemma_joined_land(*map, tiles@[0], t);
                            assert(!some_island_has(earlier, t));
                            lemma_rank_order(*map, seed, t);
                        }
                    }
                    let island = Island { id: IslandId(islands.len()), tiles };
                    islands.push(island);
                    proof {
                        let now = islands@;
                        let last = now.len() - 1;
                        assert(now[last].tiles@ == tiles@);
                        assert forall|p: GridPosition| some_island_has(now, p) <==> (
                        some_island_has(earlier, p) || tiles@.contains(p)) by {
                            if some_island_has(earlier, p) {
                                let i = choose|i: int|
                                    0 <= i < earlier.len() && (
                                    #[trigger] earlier[i]).tiles@.contains(p);
                                assert(now[i].tiles@.contains(p));
                            }
                            if tiles@.contains(p) {
                                assert(now[last].tiles@.contains(p));
                            }
                            if some_island_has(now, p) {
                                let i = choose|i: int|
                                    0 <= i < now.len() && (#[trigger] now[i]).tiles@.contains(p);
                                if i < last {
                                    assert(earlier[i].tiles@.contains(p));
                                }
                            }
                        }
                        assert(tiles@.contains(seed));
                    }
                } else {
                    if !land {
                        visited.set(index, true);
                        proof {
                            assert forall|p: GridPosition| is_land(*map, p) implies map.rank(p)
                                != index by {
                                if map.rank(p) == index {
                                    map.lemma_rank_injective(p, seed);
                                }
                            }
                        }
                    }
                }
                proof {
                    assert forall|p: GridPosition|
                        is_land(*map, p) && (p.y < y || (p.y == y && p.x < x
                            + 1)) implies #[trigger] some_island_has(islands@, p) by {
                        if p.y == y && p.x == x {
                            assert(p == seed);
                        }
                    }
                }
                x += 1;
            }
            y += 1;
        }
        IslandMap { islands }
    }

    /// Fills the land mass around `seed`, breadth first, and marks its tiles.
    fn fill(
        map: &GameMap,
        visited: &mut Vec<bool>,
        islands: &Vec<Island>,
        seed: GridPosition,
    ) -> (tiles: Vec<GridPosition>)
        requires
            map.wf(),
            are_islands(*map, islands@),
            marks(*map, old(visited)@, islands@, Seq::empty()),
            is_land(*map, seed),
            !some_island_has(islands@, seed),
        ensures
            tiles@.len() > 0,
            tiles@[0] == seed,
            is_component(*map, tiles@),
            forall|i: int| 0 <= i < tiles@.len() ==> !some_island_has(islands@, #[trigger] tiles@[i]),
            marks(*map, final(visited)@, islands@, tiles@),
    {
        let start: usize = map.index_of(seed);
        let mut tiles: Vec<GridPosition> = Vec::new();
        tiles.push(seed);
        visited.set(start, true);
        let ghost count = map.tiles.len() as int;
        proof {
            lemma_joined_self(*map, seed);
            lemma_marks_added(*map, old(visited)@, islands@, Seq::empty(), seed);
            assert(Seq::<GridPosition>::empty().push(seed) =~= tiles@);
        }
        let mut head: usize = 0;
        while head < tiles.len()
            invariant
                map.wf(),
                count == map.tiles.len(),
                are_islands(*map, islands@),
                head <= tiles.len(),
                tiles@.len() > 0,
                tiles@[0] == seed,
                marks(*map, visited@, islands@, tiles@),
                filling(*map, islands@, tiles@, head as int),
            decreases unset(visited@, count) + (tiles.len() - head),
        {
            let t = tiles[head];
            let near = map.get_adjacent(t.x, t.y);
            proof {
                map.lemma_adjacent(t);
                assert(joined(*map, tiles@[0], tiles@[head as int]));
                lemma_joined_land(*map, seed, t);
            }
            let ghost measure = unset(visited@, count) + (tiles.len() - head);
            let mut n: usize = 0;
            while n < near.len()
                invariant
                    map.wf(),
                    count == map.tiles.len(),
                    are_islands(*map, islands@),
                    n <= near.len(),
                    near@ == map.adjacent(t),
                    forall|q: GridPosition| #[trigger] near@.contains(q) <==> map.touches(t, q),
                    head < tiles.len(),
                    tiles@[head as int] == t,
                    tiles@[0] == seed,
                    is_land(*map, t),
                    marks(*map, visited@, islands@, tiles@),
                    filling(*map, islands@, tiles@, head as int),
                    forall|j: int|
                        0 <= j < n && is_land(*map, #[trigger] near@[j]) ==> tiles@.contains(
                            near@[j],
                        ),
                    measure == unset(visited@, count) + (tiles.len() - head),
                decreases near.len() - n,
            {
                let q = near[n];
                proof {
                    assert(near@.contains(q));
                    assert(map.touches(t, q));
                    assert(map.contains(q));
                }
                let index: usize = map.index_of(q);
                let ghost tiles_before = tiles@;
                let ghost visited_before = visited@;
                if !visited[index] {
                    if let Some(terrain) = map.get_terrain(q.x, q.y) {
                        if terrain != Terrain::Sea {
                            visited.set(index, true);
                            tiles.push(q);
                            proof {
                                lemma_marks_added(
                                    *map,
                                    visited_before,
                                    islands@,
                                    tiles_before,
                                    q,
                                );
                                lemma_unset_set(visited_before, index as int, count);
                                lemma_joined_step(*map, seed, t, q);
                                lemma_filling_added(*map, islands@, tiles_before, head as int, q);
                                assert(tiles@ =~= tiles_before.push(q));
                            }
                        }
                    }
                } else {
                    proof {
                        if is_land(*map, q) {
                            assert(!some_island_has(islands@, tiles@[head as int]));
                            lemma_neighbour_not_in_earlier(*map, islands@, t, q);
                        }
                    }
                }
                proof {
                    assert forall|j: int|
                        0 <= j < n + 1 && is_land(*map, #[trigger] near@[j]) implies tiles@.contains(
                        near@[j],
                    ) by {
                        if j < n {
                            assert(tiles_before.contains(near@[j]));
                            let m = choose|m: int|
                                0 <= m < tiles_before.len() && tiles_before[m] == near@[j];
                            assert(tiles@[m] == near@[j]);
                        } else if tiles@ != tiles_before {
                            assert(tiles@[tiles@.len() - 1] == q);
                        }
                    }
                }
                n += 1;
            }
            proof {
                assert forall|i: int, q: GridPosition|
                    0 <= i < head + 1 && #[trigger] map.touches(tiles@[i], q) && is_land(
                        *map,
                        q,
                    ) implies tiles@.contains(q) by {
                    if i == head {
                        assert(near@.contains(q));
                        let j = choose|j: int| 0 <= j < near@.len() && near@[j] == q;
                        assert(is_land(*map, near@[j]));
                    }
                }
            }
            head += 1;
        }
        proof {
            lemma_filled(*map, islands@, tiles@);
        }
        tiles
    }

    /// The island that holds the position, if any does.
    pub fn get_island_at(&self, pos: &GridPosition) -> (r: Option<&Island>)
        ensures
            match r {
                Some(island) => exists|i: int|
                    0 <= i < self.islands.len() && *island == #[trigger] self.islands[i]
                        && island.tiles@.contains(*pos) && forall|j: int|
                        0 <= j < i ==> !(#[trigger] self.islands[j]).tiles@.contains(*pos),
                None => !some_island_has(self.islands@, *pos),
            },
    {
        let mut i: usize = 0;
        while i < self.islands.len()
            invariant
                i <= self.islands.len(),
                forall|j: int| 0 <= j < i ==> !(#[trigger] self.islands[j]).tiles@.contains(*pos),
            decreases self.islands.len() - i,
        {
            if contains_position(&self.islands[i].tiles, *pos) {
                return Some(&self.islands[i]);
            }
            i += 1;
        }
        None
    }
}

proof fn lemma_rank_order(map: GameMap, seed: GridPosition, t: GridPosition)
    requires
        map.contains(seed),
        map.contains(t),
        !(t.y < seed.y || (t.y == seed.y && t.x < seed.x)),
    ensures
        map.rank(seed) <= map.rank(t),
{
    let (sx, sy, tx, ty, w) = (
        seed.x as int,
        seed.y as int,
        t.x as int,
        t.y as int,
        map.width as int,
    );
    if sy < ty {
        assert(sy * w + sx <= ty * w + tx) by (nonlinear_arith)
            requires
                sy + 1 <= ty,
                0 <= sx < w,
                0 <= tx,
        ;
    }
}

proof fn lemma_marks_added(
    map: GameMap,
    visited: Seq<bool>,
    islands: Seq<Island>,
    tiles: Seq<GridPosition>,
    q: GridPosition,
)
    requires
        map.wf(),
        marks(map, visited, islands, tiles),
        is_land(map, q),
    ensures
        marks(map, visited.update(map.rank(q), true), islands, tiles.push(q)),
{
    map.lemma_rank_in_range(q);
    let after = visited.update(map.rank(q), true);
    let more = tiles.push(q);
    assert forall|p: GridPosition| is_land(map, p) implies (after[#[trigger] map.rank(p)] <==> (
    some_island_has(islands, p) || more.contains(p))) by {
        map.lemma_rank_in_range(p);
        if map.rank(p) == map.rank(q) {
            map.lemma_rank_injective(p, q);
            assert(more[tiles.len() as int] == q);
        } else {
            if tiles.contains(p) {
                let m = choose|m: int| 0 <= m < tiles.len() && tiles[m] == p;
                assert(more[m] == p);
            }
            if more.contains(p) {
                let m = choose|m: int| 0 <= m < more.len() && more[m] == p;
                assert(tiles[m] == p);
            }
        }
    }
}

proof fn lemma_filling_added(
    map: GameMap,
    islands: Seq<Island>,
    tiles: Seq<GridPosition>,
    head: int,
    q: GridPosition,
)
    requires
        0 <= head < tiles.len(),
        filling(map, islands, tiles, head),
        joined(map, tiles[0], q),
        !tiles.contains(q),
        !some_island_has(islands, q),
    ensures
        filling(map, islands, tiles.push(q), head),
{
    let more = tiles.push(q);
    assert forall|i: int, r: GridPosition|
        0 <= i < head && #[trigger] map.touches(more[i], r) && is_land(map, r) implies more.contains(
        r,
    ) by {
        assert(map.touches(tiles[i], r));
        let m = choose|m: int| 0 <= m < tiles.len() && tiles[m] == r;
        assert(more[m] == r);
    }
    assert forall|i: int, j: int| 0 <= i < more.len() && 0 <= j < more.len() && i != j implies more[i]
        != more[j] by {
        if i == tiles.len() {
            assert(tiles[j] == more[j]);
        } else if j == tiles.len() {
            assert(tiles[i] == more[i]);
        }
    }
}

} // verus!
