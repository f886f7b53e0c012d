//! Whether the way to a target leads over water.
use crate::grid::{manhattan, manhattan_distance, GameMap, GridPosition, Terrain};
use vstd::prelude::*;

verus! {

/// The point `i` quarters of the way from `a` to `b`, rounded toward `a`.
pub open spec fn quarter_point(a: usize, b: usize, i: int) -> int {
    if a <= b {
        a + (b - a) * i / 4
    } else {
        a - (a - b) * i / 4
    }
}

/// The tile is water.
pub open spec fn wet(map: GameMap, p: GridPosition) -> bool {
    map.terrain_at(p) == Some(Terrain::Sea) || map.terrain_at(p) == Some(Terrain::Shoal)
}

/// The tile `i` quarters of the way.
pub open spec fn waypoint(a: GridPosition, b: GridPosition, i: int) -> GridPosition {
    GridPosition {
        x: quarter_point(a.x, b.x, i) as usize,
        y: quarter_point(a.y, b.y, i) as usize,
    }
}

/// One of the three points between the quarters of the way is water.
pub open spec fn over_water(map: GameMap, from: GridPosition, to: GridPosition) -> bool {
    wet(map, waypoint(from, to, 1)) || wet(map, waypoint(from, to, 2)) || wet(
        map,
        waypoint(from, to, 3),
    )
}

fn find_quarter_point(a: usize, b: usize, i: usize) -> (r: usize)
    requires
        i <= 3,
    ensures
        r == quarter_point(a, b, i as int),
{
    let wide: u128 = if a <= b {
        (b - a) as u128
    } else {
        (a - b) as u128
    };
    proof {
        assert(0 <= wide * i <= 3 * wide) by (nonlinear_arith)
            requires
                0 <= wide,
                0 <= i <= 3,
        ;
    }
    let step: usize = (wide * i as u128 / 4) as usize;
    if a <= b {
        a + step
    } else {
        a - step
    }
}

/// Whether the way from one tile to another leads over water.
pub fn crosses_water(map: &GameMap, from: GridPosition, to: GridPosition) -> (r: bool)
    ensures
        r == over_water(*map, from, to),
{
    let mut i: usize = 1;
    while i < 4
        invariant
            1 <= i <= 4,
            forall|j: int| 1 <= j < i ==> !wet(*map, #[trigger] waypoint(from, to, j)),
        decreases 4 - i,
    {
        let x: usize = find_quarter_point(from.x, to.x, i);
        let y: usize = find_quarter_point(from.y, to.y, i);
        let terrain = map.get_terrain(x, y);
        assert(waypoint(from, to, i as int) == (GridPosition { x, y }));
        if terrain == Some(Terrain::Sea) || terrain == Some(Terrain::Shoal) {
            assert(wet(*map, waypoint(from, to, i as int)));
            return true;
        }
        i += 1;
    }
    assert(!wet(*map, waypoint(from, to, 1)));
    assert(!wet(*map, waypoint(from, to, 2)));
    assert(!wet(*map, waypoint(from, to, 3)));
    false
}

/// The first of the nearest among the first `n` targets.
pub open spec fn nearest(targets: Seq<GridPosition>, from: GridPosition, n: int) -> Option<
    GridPosition,
>
    decreases n,
{
    if n <= 0 {
        None
    } else {
        match nearest(targets, from, n - 1) {
            Some(best) => if manhattan(from, targets[n - 1]) < manhattan(from, best) {
                Some(targets[n - 1])
            } else {
                Some(best)
            },
            None => Some(targets[n - 1]),
        }
    }
}

/// The first of the nearest targets.
pub fn nearest_target(targets: &Vec<GridPosition>, from: GridPosition) -> (r: Option<GridPosition>)
    ensures
        r == nearest(targets@, from, targets.len() as int),
{
    let mut best: Option<GridPosition> = None;
    let mut n: usize = 0;
    while n < targets.len()
        invariant
            n <= targets.len(),
            best == nearest(targets@, from, n as int),
        decreases targets.len() - n,
    {
        best =
        match best {
            Some(p) => if manhattan_distance(from, targets[n]) < manhattan_distance(from, p) {
                Some(targets[n])
            } else {
                Some(p)
            },
            None => Some(targets[n]),
        };
        n += 1;
    }
    best
}

/// The nearest target is one of the targets, and no target is nearer.
pub proof fn law_nearest_is_nearest(targets: Seq<GridPosition>, from: GridPosition, n: int)
    requires
        0 <= n <= targets.len(),
    ensures
        nearest(targets, from, n) is None <==> n == 0,
        nearest(targets, from, n) matches Some(best) ==> targets.contains(best) && forall|i: int|
            0 <= i < n ==> manhattan(from, best) <= manhattan(from, #[trigger] targets[i]),
    decreases n,
{
    if n > 0 {
        law_nearest_is_nearest(targets, from, n - 1);
        assert(targets.contains(targets[n - 1]));
    }
}

/// A way leads over water if a quarter, a half or three quarters of it lies on sea or shoal.
pub proof fn law_water_is_seen_on_the_way(
    map: GameMap,
    from: GridPosition,
    to: GridPosition,
    i: int,
    p: GridPosition,
)
    requires
        1 <= i <= 3,
        lies_on_the_way(from.x as int, to.x as int, i, p.x as int),
        lies_on_the_way(from.y as int, to.y as int, i, p.y as int),
    ensures
        map.terrain_at(p) == Some(Terrain::Sea) || map.terrain_at(p) == Some(Terrain::Shoal)
            ==> over_water(map, from, to),
{
    lemma_on_the_way(from.x, to.x, i, p.x as int);
    lemma_on_the_way(from.y, to.y, i, p.y as int);
    assert(p == waypoint(from, to, i));
}

/// The number lies `i` quarters of the way from `a` to `b`, or less than one before that.
pub open spec fn lies_on_the_way(a: int, b: int, i: int, v: int) -> bool {
    if a <= b {
        4 * (v - a) <= i * (b - a) < 4 * (v - a) + 4
    } else {
        4 * (a - v) <= i * (a - b) < 4 * (a - v) + 4
    }
}

proof fn lemma_on_the_way(a: usize, b: usize, i: int, v: int)
    requires
        1 <= i <= 3,
    ensures
        lies_on_the_way(a as int, b as int, i, v) <==> v == quarter_point(a, b, i),
        0 <= quarter_point(a, b, i) <= usize::MAX,
{
    let wide = if a <= b {
        b - a
    } else {
        a - b
    };
    assert(wide * i == i * wide) by (nonlinear_arith);
    assert(0 <= wide * i <= 3 * wide) by (nonlinear_arith)
        requires
            0 <= wide,
            1 <= i <= 3,
    ;
}

/// A way that leads over water has water at a quarter, a half or three quarters of it.
pub proof fn law_dry_way_has_no_water(map: GameMap, from: GridPosition, to: GridPosition)
    ensures
        over_water(map, from, to) ==> exists|i: int, p: GridPosition|
            {
                &&& 1 <= i <= 3
                &&& #[trigger] lies_on_the_way(from.x as int, to.x as int, i, p.x as int)
                &&& lies_on_the_way(from.y as int, to.y as int, i, p.y as int)
                &&& map.terrain_at(p) == Some(Terrain::Sea) || map.terrain_at(p) == Some(
                    Terrain::Shoal,
                )
            },
{
    if over_water(map, from, to) {
        let i = if wet(map, waypoint(from, to, 1)) {
            1int
        } else if wet(map, waypoint(from, to, 2)) {
            2int
        } else {
            3int
        };
        let p = waypoint(from, to, i);
        lemma_on_the_way(from.x, to.x, i, p.x as int);
        lemma_on_the_way(from.y, to.y, i, p.y as int);
        assert(lies_on_the_way(from.x as int, to.x as int, i, p.x as int));
    }
}

} // verus!
