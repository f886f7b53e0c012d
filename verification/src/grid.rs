//! Positions, terrain and the game map.
use vstd::prelude::*;

verus! {

/// A tile position: column `x` and row `y`.
#[derive(Clone, Copy, Debug, PartialEq, Eq, Hash, PartialOrd, Ord, Structural)]
pub struct GridPosition {
    pub x: usize,
    pub y: usize,
}

/// What a tile is made of.
#[derive(Clone, Copy, Debug, PartialEq, Eq, Hash, Structural)]
pub enum Terrain {
    Plains,
    Forest,
    Mountain,
    Road,
    Bridge,
    River,
    Sea,
    Shoal,
    Reef,
    City,
    Factory,
    Airport,
    Port,
    Capital,
}

/// How the tiles of a map touch.
#[derive(Clone, Copy, Debug, PartialEq, Eq, Hash, Structural)]
pub enum GridTopology {
    /// Four neighbours.
    Square,
    /// Six neighbours; odd rows are shifted half a tile to the right.
    Hex,
}

/// A rectangular map of tiles, stored row by row.
#[derive(Clone, Debug)]
pub struct GameMap {
    pub width: usize,
    pub height: usize,
    pub tiles: Vec<Terrain>,
    pub topology: GridTopology,
}

/// The distance between two numbers.
pub open spec fn gap(a: int, b: int) -> nat {
    if a <= b {
        (b - a) as nat
    } else {
        (a - b) as nat
    }
}

/// Steps between two positions when only the four directions count.
pub open spec fn manhattan(a: GridPosition, b: GridPosition) -> nat {
    gap(a.x as int, b.x as int) + gap(a.y as int, b.y as int)
}

/// Steps between two positions when only the four directions count.
pub fn manhattan_distance(a: GridPosition, b: GridPosition) -> (r: u128)
    ensures
        r == manhattan(a, b),
{
    let dx: usize = if a.x <= b.x { b.x - a.x } else { a.x - b.x };
    let dy: usize = if a.y <= b.y { b.y - a.y } else { a.y - b.y };
    dx as u128 + dy as u128
}

impl GameMap {
    /// The map holds one tile for each position.
    pub open spec fn wf(self) -> bool {
        self.tiles.len() == self.width * self.height
    }

    /// The position lies on the map.
    pub open spec fn contains(self, p: GridPosition) -> bool {
        p.x < self.width && p.y < self.height
    }

    /// Where the tile of a position is stored; also the place of the position when the map is
    /// read row by row.
    pub open spec fn rank(self, p: GridPosition) -> int {
        p.y * self.width + p.x
    }

    /// The terrain at a position, if the position lies on the map.
    pub open spec fn terrain_at(self, p: GridPosition) -> Option<Terrain> {
        if self.contains(p) && self.rank(p) < self.tiles.len() {
            Some(self.tiles[self.rank(p)])
        } else {
            None
        }
    }

    /// Two positions touch and the second lies on the map.
    pub open spec fn touches(self, p: GridPosition, q: GridPosition) -> bool {
        self.contains(q) && match self.topology {
            GridTopology::Square => manhattan(p, q) == 1,
            GridTopology::Hex => {
                if p.y == q.y {
                    gap(p.x as int, q.x as int) == 1
                } else {
                    gap(p.y as int, q.y as int) == 1 && (if p.y % 2 == 1 {
                        q.x == p.x || q.x == p.x + 1
                    } else {
                        q.x == p.x || q.x + 1 == p.x
                    })
                }
            },
        }
    }

    /// Touching is mutual between positions on the map.
    pub proof fn lemma_touches_symmetric(self, p: GridPosition, q: GridPosition)
        requires
            self.touches(p, q),
            self.contains(p),
        ensures
            self.touches(q, p),
    {
    }

    /// A map of one terrain.
    pub fn new(width: usize, height: usize, terrain: Terrain, topology: GridTopology) -> (r: GameMap)
        requires
            width * height <= usize::MAX,
        ensures
            r.wf(),
            r.width == width,
            r.height == height,
            r.topology == topology,
            forall|p: GridPosition| r.contains(p) ==> #[trigger] r.terrain_at(p) == Some(terrain),
    {
        let count: usize = width * height;
        let mut tiles: Vec<Terrain> = Vec::new();
        let mut i: usize = 0;
        while i < count
            invariant
                i <= count,
                tiles.len() == i,
                forall|k: int| 0 <= k < i ==> tiles[k] == terrain,
            decreases count - i,
        {
            tiles.push(terrain);
            i += 1;
        }
        let r = GameMap { width, height, tiles, topology };
        proof {
            assert forall|p: GridPosition| r.contains(p) implies #[trigger] r.terrain_at(p) == Some(
                terrain,
            ) by {
                r.lemma_rank_in_range(p);
            }
        }
        r
    }

    /// A position on the map has its tile.
    pub proof fn lemma_rank_in_range(self, p: GridPosition)
        requires
            self.contains(p),
        ensures
            0 <= self.rank(p) < self.width * self.height,
    {
        let (x, y, w, h) = (p.x as int, p.y as int, self.width as int, self.height as int);
        assert(0 <= y * w + x < w * h) by (nonlinear_arith)
            requires
                0 <= x < w,
                0 <= y < h,
        ;
    }

    /// Different positions on the map have different tiles.
    pub proof fn lemma_rank_injective(self, p: GridPosition, q: GridPosition)
        requires
            self.contains(p),
            self.contains(q),
            self.rank(p) == self.rank(q),
        ensures
            p == q,
    {
        let (px, py, qx, qy, w) = (
            p.x as int,
            p.y as int,
            q.x as int,
            q.y as int,
            self.width as int,
        );
        assert(py == qy) by (nonlinear_arith)
            requires
                py * w + px == qy * w + qx,
                0 <= px < w,
                0 <= qx < w,
        ;
    }

    /// Where the tile of a position is stored.
    pub fn index_of(&self, p: GridPosition) -> (r: usize)
        requires
            self.wf(),
            self.contains(p),
        ensures
            r == self.rank(p),
            r < self.tiles.len(),
    {
        proof {
            self.lemma_rank_in_range(p);
            let (y, w) = (p.y as int, self.width as int);
            assert(0 <= y * w) by (nonlinear_arith)
                requires
                    0 <= y,
                    0 <= w,
            ;
        }
        p.y * self.width + p.x
    }

    /// The terrain at column `x` of row `y`, if that lies on the map.
    pub fn get_terrain(&self, x: usize, y: usize) -> (r: Option<Terrain>)
        ensures
            r == self.terrain_at(GridPosition { x, y }),
    {
        if x >= self.width || y >= self.height {
            return None;
        }
        proof {
            let (yy, w) = (y as int, self.width as int);
            assert(0 <= yy * w) by (nonlinear_arith)
                requires
                    0 <= yy,
                    0 <= w,
            ;
        }
        match y.checked_mul(self.width) {
            None => None,
            Some(start) => match start.checked_add(x) {
                None => None,
                Some(index) => if index < self.tiles.len() {
                    Some(self.tiles[index])
                } else {
                    None
                },
            },
        }
    }

    /// Sets the terrain of one tile, or says that there is no such tile.
    pub fn set_terrain(&mut self, x: usize, y: usize, terrain: Terrain) -> (r: Result<(), ()>)
        requires
            old(self).wf(),
        ensures
            final(self).wf(),
            final(self).width == old(self).width,
            final(self).height == old(self).height,
            final(self).topology == old(self).topology,
            r is Ok <==> old(self).contains(GridPosition { x, y }),
            r is Err ==> final(self).tiles@ == old(self).tiles@,
            r is Ok ==> forall|p: GridPosition|
                old(self).contains(p) ==> #[trigger] final(self).terrain_at(p) == (if p
                    == (GridPosition { x, y }) {
                    Some(terrain)
                } else {
                    old(self).terrain_at(p)
                }),
    {
        if x >= self.width || y >= self.height {
            return Err(());
        }
        let p = GridPosition { x, y };
        let ghost before = *self;
        let index: usize = self.index_of(p);
        self.tiles.set(index, terrain);
        proof {
            assert forall|q: GridPosition| before.contains(q) implies #[trigger] self.terrain_at(q)
                == (if q == p {
                Some(terrain)
            } else {
                before.terrain_at(q)
            }) by {
                before.lemma_rank_in_range(q);
                if q != p && before.rank(q) == before.rank(p) {
                    before.lemma_rank_injective(q, p);
                }
            }
        }
        Ok(())
    }
}

/// A list of positions with one more at its end, where `keep` says so.
pub open spec fn append_if(
    s: Seq<GridPosition>,
    keep: bool,
    x: int,
    y: int,
) -> Seq<GridPosition> {
    if keep {
        s.push(GridPosition { x: x as usize, y: y as usize })
    } else {
        s
    }
}

impl GameMap {
    /// The positions on the map that touch `p`: the row above, the row below, the left, the right;
    /// on a hexagonal map the two tiles of a row from left to right.
    pub open spec fn adjacent(self, p: GridPosition) -> Seq<GridPosition> {
        let (x, y) = (p.x as int, p.y as int);
        let (w, h) = (self.width as int, self.height as int);
        match self.topology {
            GridTopology::Square => {
                let up = append_if(Seq::empty(), y >= 1 && x < w && y - 1 < h, x, y - 1);
                let down = append_if(up, x < w && y + 1 < h, x, y + 1);
                let left = append_if(down, x >= 1 && x - 1 < w && y < h, x - 1, y);
                append_if(left, x + 1 < w && y < h, x + 1, y)
            },
            GridTopology::Hex => {
                let first = if y % 2 == 1 {
                    x
                } else {
                    x - 1
                };
                let up_a = append_if(
                    Seq::empty(),
                    y >= 1 && 0 <= first < w && y - 1 < h,
                    first,
                    y - 1,
                );
                let up_b = append_if(up_a, y >= 1 && first + 1 < w && y - 1 < h, first + 1, y - 1);
                let down_a = append_if(up_b, 0 <= first < w && y + 1 < h, first, y + 1);
                let down_b = append_if(down_a, first + 1 < w && y + 1 < h, first + 1, y + 1);
                let left = append_if(down_b, x >= 1 && x - 1 < w && y < h, x - 1, y);
                append_if(left, x + 1 < w && y < h, x + 1, y)
            },
        }
    }

    /// The positions on the map that touch the tile at column `x` of row `y`.
    pub fn get_adjacent(&self, x: usize, y: usize) -> (r: Vec<GridPosition>)
        ensures
            r@ == self.adjacent(GridPosition { x, y }),
    {
        let mut r: Vec<GridPosition> = Vec::new();
        let w: usize = self.width;
        let h: usize = self.height;
        match self.topology {
            GridTopology::Square => {
                if y >= 1 && x < w && y - 1 < h {
                    r.push(GridPosition { x, y: y - 1 });
                }
                if x < w && y < h && y + 1 < h {
                    r.push(GridPosition { x, y: y + 1 });
                }
            },
            GridTopology::Hex => {
                let odd: bool = y % 2 == 1;
                let has_first: bool = odd || x >= 1;
                let first: usize = if odd {
                    x
                } else if x >= 1 {
                    x - 1
                } else {
                    0
                };
                let has_second: bool = !odd || x < w;
                let second: usize = if odd {
                    if x < w {
                        x + 1
                    } else {
                        x
                    }
                } else {
                    x
                };
                if y >= 1 && has_first && first < w && y - 1 < h {
                    r.push(GridPosition { x: first, y: y - 1 });
                }
                if y >= 1 && has_second && second < w && y - 1 < h {
                    r.push(GridPosition { x: second, y: y - 1 });
                }
                if has_first && first < w && y < h && y + 1 < h {
                    r.push(GridPosition { x: first, y: y + 1 });
                }
                if has_second && second < w && y < h && y + 1 < h {
                    r.push(GridPosition { x: second, y: y + 1 });
                }
            },
        }
        if x >= 1 && x - 1 < w && y < h {
            r.push(GridPosition { x: x - 1, y });
        }
        if x < w && x + 1 < w && y < h {
            r.push(GridPosition { x: x + 1, y });
        }
        r
    }

    /// The listed neighbours are exactly the positions on the map that touch `p`.
    pub proof fn lemma_adjacent(self, p: GridPosition)
        ensures
            forall|q: GridPosition| #[trigger] self.adjacent(p).contains(q) <==> self.touches(p, q),
    {
        let (x, y) = (p.x as int, p.y as int);
        let s = self.adjacent(p);
        assert forall|q: GridPosition| #[trigger] s.contains(q) <==> self.touches(p, q) by {
            match self.topology {
                GridTopology::Square => {
                    let (w, h) = (self.width as int, self.height as int);
                    let up = append_if(Seq::empty(), y >= 1 && x < w && y - 1 < h, x, y - 1);
                    let down = append_if(up, x < w && y + 1 < h, x, y + 1);
                    let left = append_if(down, x >= 1 && x - 1 < w && y < h, x - 1, y);
                    lemma_append_if(Seq::empty(), y >= 1 && x < w && y - 1 < h, x, y - 1, q);
                    lemma_append_if(up, x < w && y + 1 < h, x, y + 1, q);
                    lemma_append_if(down, x >= 1 && x - 1 < w && y < h, x - 1, y, q);
                    lemma_append_if(left, x + 1 < w && y < h, x + 1, y, q);
                },
                GridTopology::Hex => {
                    let (w, h) = (self.width as int, self.height as int);
                    let first = if y % 2 == 1 {
                        x
                    } else {
                        x - 1
                    };
                    let k1 = y >= 1 && 0 <= first < w && y - 1 < h;
                    let k2 = y >= 1 && first + 1 < w && y - 1 < h;
                    let k3 = 0 <= first < w && y + 1 < h;
                    let k4 = first + 1 < w && y + 1 < h;
                    let a = append_if(Seq::empty(), k1, first, y - 1);
                    let b = append_if(a, k2, first + 1, y - 1);
                    let c = append_if(b, k3, first, y + 1);
                    let d = append_if(c, k4, first + 1, y + 1);
                    let e = append_if(d, x >= 1 && x - 1 < w && y < h, x - 1, y);
                    lemma_append_if(Seq::empty(), k1, first, y - 1, q);
                    lemma_append_if(a, k2, first + 1, y - 1, q);
                    lemma_append_if(b, k3, first, y + 1, q);
                    lemma_append_if(c, k4, first + 1, y + 1, q);
                    lemma_append_if(d, x >= 1 && x - 1 < w && y < h, x - 1, y, q);
                    lemma_append_if(e, x + 1 < w && y < h, x + 1, y, q);
                },
            }
        }
    }
}

proof fn lemma_append_if(s: Seq<GridPosition>, keep: bool, x: int, y: int, q: GridPosition)
    ensures
        append_if(s, keep, x, y).contains(q) <==> s.contains(q) || (keep && q == (GridPosition {
            x: x as usize,
            y: y as usize,
        })),
{
    let t = append_if(s, keep, x, y);
    if keep {
        if s.contains(q) {
            let i = choose|i: int| 0 <= i < s.len() && s[i] == q;
            assert(t[i] == q);
        }
        assert(t[s.len() as int] == (GridPosition { x: x as usize, y: y as usize }));
        if t.contains(q) {
            let i = choose|i: int| 0 <= i < t.len() && t[i] == q;
            if i < s.len() {
                assert(s[i] == q);
            }
        }
    }
}

/// The magnitude of a number.
pub open spec fn magnitude(a: int) -> nat {
    if a < 0 {
        (-a) as nat
    } else {
        a as nat
    }
}

/// Steps between two tiles of a hexagonal map whose odd rows are shifted to the right: rows and
/// shifted columns are two axes, their sum is the third, and the longest one counts.
pub open spec fn hex_steps(p: GridPosition, q: GridPosition) -> nat {
    let dq = (q.x - q.y as int / 2) - (p.x - p.y as int / 2);
    let dr = q.y - p.y;
    let a = magnitude(dq);
    let b = magnitude(dr);
    let c = magnitude(dq + dr);
    if a >= b && a >= c {
        a
    } else if b >= c {
        b
    } else {
        c
    }
}

impl GameMap {
    /// Steps between two positions on a map without obstacles.
    pub open spec fn steps(self, p: GridPosition, q: GridPosition) -> nat {
        match self.topology {
            GridTopology::Square => manhattan(p, q),
            GridTopology::Hex => hex_steps(p, q),
        }
    }

    /// A tile is one step away exactly if it touches.
    pub proof fn law_one_step_touches(self, p: GridPosition, q: GridPosition)
        requires
            self.contains(q),
        ensures
            self.steps(p, q) == 1 <==> self.touches(p, q),
    {
    }

    /// Steps between two positions on a map without obstacles.
    pub fn distance(&self, p: GridPosition, q: GridPosition) -> (r: u128)
        ensures
            r == self.steps(p, q),
    {
        match self.topology {
            GridTopology::Square => manhattan_distance(p, q),
            GridTopology::Hex => {
                let dq: i128 = (q.x as i128 - (q.y / 2) as i128) - (p.x as i128 - (p.y / 2) as i128);
                let dr: i128 = q.y as i128 - p.y as i128;
                let a: i128 = if dq < 0 { -dq } else { dq };
                let b: i128 = if dr < 0 { -dr } else { dr };
                let c: i128 = if dq + dr < 0 { -(dq + dr) } else { dq + dr };
                let longest: i128 = if a >= b && a >= c {
                    a
                } else if b >= c {
                    b
                } else {
                    c
                };
                longest as u128
            },
        }
    }
}

/// The index of the first of the nearest candidates among the first `n`, if one is nearer than
/// the limit.
pub open spec fn closest_within(
    cands: Seq<GridPosition>,
    from: GridPosition,
    limit: nat,
    n: int,
) -> Option<int>
    decreases n,
{
    if n <= 0 {
        None
    } else {
        let d = manhattan(cands[n - 1], from);
        match closest_within(cands, from, limit, n - 1) {
            Some(b) => if d < manhattan(cands[b], from) {
                Some(n - 1)
            } else {
                Some(b)
            },
            None => if d < limit {
                Some(n - 1)
            } else {
                None
            },
        }
    }
}

/// The closest candidate is near enough, none is nearer, and none before it is as near; there is
/// none exactly if all are too far.
pub proof fn lemma_closest_within(
    cands: Seq<GridPosition>,
    from: GridPosition,
    limit: nat,
    n: int,
)
    requires
        0 <= n <= cands.len(),
    ensures
        match closest_within(cands, from, limit, n) {
            Some(b) => 0 <= b < n && manhattan(cands[b], from) < limit && (forall|i: int|
                0 <= i < n ==> manhattan(cands[b], from) <= manhattan(#[trigger] cands[i], from))
                && (forall|i: int|
                0 <= i < b ==> manhattan(cands[b], from) < manhattan(#[trigger] cands[i], from)),
            None => forall|i: int| 0 <= i < n ==> manhattan(#[trigger] cands[i], from) >= limit,
        },
    decreases n,
{
    if n > 0 {
        lemma_closest_within(cands, from, limit, n - 1);
    }
}

/// The index of the first of the nearest candidates, if one is nearer than the limit.
pub fn find_closest_within(cands: &Vec<GridPosition>, from: GridPosition, limit: u128) -> (r: Option<
    usize,
>)
    ensures
        r is Some <==> closest_within(cands@, from, limit as nat, cands.len() as int) is Some,
        r matches Some(i) ==> closest_within(cands@, from, limit as nat, cands.len() as int)
            == Some(i as int) && i < cands.len() && manhattan(cands[i as int], from) < limit,
{
    let mut best: Option<usize> = None;
    let mut n: usize = 0;
    while n < cands.len()
        invariant
            n <= cands.len(),
            best is Some <==> closest_within(cands@, from, limit as nat, n as int) is Some,
            best matches Some(i) ==> closest_within(cands@, from, limit as nat, n as int) == Some(
                i as int,
            ) && i < n && manhattan(cands[i as int], from) < limit,
        decreases cands.len() - n,
    {
        let d: u128 = manhattan_distance(cands[n], from);
        match best {
            Some(b) => {
                if d < manhattan_distance(cands[b], from) {
                    best = Some(n);
                }
            },
            None => {
                if d < limit {
                    best = Some(n);
                }
            },
        }
        n += 1;
    }
    best
}

/// Whether the list holds the position.
pub fn contains_position(list: &Vec<GridPosition>, p: GridPosition) -> (r: bool)
    ensures
        r == list@.contains(p),
{
    let mut i: usize = 0;
    while i < list.len()
        invariant
            i <= list.len(),
            forall|j: int| 0 <= j < i ==> list[j] != p,
        decreases list.len() - i,
    {
        if list[i] == p {
            assert(list@[i as int] == p);
            return true;
        }
        i += 1;
    }
    false
}


/// The position comes first when the map is read row by row.
pub open spec fn read_before(p: GridPosition, q: GridPosition) -> bool {
    p.y < q.y || (p.y == q.y && p.x < q.x)
}

/// Whether the position comes first when the map is read row by row.
pub fn reads_before(p: GridPosition, q: GridPosition) -> (r: bool)
    ensures
        r == read_before(p, q),
{
    p.y < q.y || (p.y == q.y && p.x < q.x)
}

/// The positions stand in reading order, each once.
pub open spec fn in_reading_order(s: Seq<GridPosition>) -> bool {
    forall|i: int, j: int| 0 <= i < j < s.len() ==> read_before(#[trigger] s[i], #[trigger] s[j])
}

/// The place among the first `n` positions in reading order at which `p` stands or belongs.
pub open spec fn reading_slot(s: Seq<GridPosition>, p: GridPosition, n: int) -> int
    decreases n,
{
    if n <= 0 {
        0
    } else if !read_before(s[n - 1], p) {
        reading_slot(s, p, n - 1)
    } else {
        n
    }
}

/// A list in reading order with `p` added, unless it is there already.
pub open spec fn with_position(s: Seq<GridPosition>, p: GridPosition) -> Seq<GridPosition> {
    let k = reading_slot(s, p, s.len() as int);
    if k < s.len() && s[k] == p {
        s
    } else {
        s.insert(k, p)
    }
}

/// The positions among the first `n` of `s` in reading order, each once.
pub open spec fn reading_prefix(s: Seq<GridPosition>, n: int) -> Seq<GridPosition>
    decreases n,
{
    if n <= 0 {
        Seq::empty()
    } else {
        with_position(reading_prefix(s, n - 1), s[n - 1])
    }
}

/// The positions of `s` in reading order, each once.
pub open spec fn sorted_positions(s: Seq<GridPosition>) -> Seq<GridPosition> {
    reading_prefix(s, s.len() as int)
}

proof fn lemma_reading_slot(s: Seq<GridPosition>, p: GridPosition, n: int)
    requires
        0 <= n <= s.len(),
    ensures
        0 <= reading_slot(s, p, n) <= n,
        forall|i: int| reading_slot(s, p, n) <= i < n ==> !read_before(#[trigger] s[i], p),
        reading_slot(s, p, n) > 0 ==> read_before(s[reading_slot(s, p, n) - 1], p),
    decreases n,
{
    if n > 0 && !read_before(s[n - 1], p) {
        lemma_reading_slot(s, p, n - 1);
    }
}

proof fn lemma_with_position(s: Seq<GridPosition>, p: GridPosition)
    requires
        in_reading_order(s),
    ensures
        in_reading_order(with_position(s, p)),
        forall|q: GridPosition| #[trigger] with_position(s, p).contains(q) <==> s.contains(q) || q
            == p,
{
    let n = s.len() as int;
    let k = reading_slot(s, p, n);
    lemma_reading_slot(s, p, n);
    let t = with_position(s, p);
    if k < n && s[k] == p {
        assert(s.contains(p));
    } else {
        assert(t == s.insert(k, p));
        assert(k < n ==> read_before(p, s[k]));
        assert forall|i: int, j: int| 0 <= i < j < t.len() implies read_before(
            #[trigger] t[i],
            #[trigger] t[j],
        ) by {
            let a = if i < k { i } else { i - 1 };
            let b = if j < k { j } else { j - 1 };
            if i == k {
                assert(t[j] == s[j - 1]);
                assert(k == j - 1 || read_before(s[k], s[j - 1]));
            } else if j == k {
                assert(t[i] == s[i]);
                assert(i == k - 1 || read_before(s[i], s[k - 1]));
            } else {
                assert(t[i] == s[a] && t[j] == s[b]);
            }
        }
        assert forall|q: GridPosition| #[trigger] t.contains(q) <==> s.contains(q) || q == p by {
            if t.contains(q) {
                let i = choose|i: int| 0 <= i < t.len() && t[i] == q;
                if i < k {
                    assert(s[i] == q);
                } else if i > k {
                    assert(s[i - 1] == q);
                }
            }
            if s.contains(q) {
                let i = choose|i: int| 0 <= i < s.len() && s[i] == q;
                if i < k {
                    assert(t[i] == q);
                } else {
                    assert(t[i + 1] == q);
                }
            }
            assert(t[k] == p);
        }
    }
}

proof fn lemma_reading_prefix(s: Seq<GridPosition>, n: int)
    requires
        0 <= n <= s.len(),
    ensures
        in_reading_order(reading_prefix(s, n)),
        forall|q: GridPosition|
            #[trigger] reading_prefix(s, n).contains(q) <==> exists|i: int|
                0 <= i < n && #[trigger] s[i] == q,
    decreases n,
{
    if n > 0 {
        lemma_reading_prefix(s, n - 1);
        lemma_with_position(reading_prefix(s, n - 1), s[n - 1]);
        assert forall|q: GridPosition|
            #[trigger] reading_prefix(s, n).contains(q) <==> exists|i: int|
                0 <= i < n && #[trigger] s[i] == q by {
            if exists|i: int| 0 <= i < n && #[trigger] s[i] == q {
                let i = choose|i: int| 0 <= i < n && #[trigger] s[i] == q;
                if i < n - 1 {
                    assert(reading_prefix(s, n - 1).contains(q));
                }
            }
            if reading_prefix(s, n).contains(q) && q != s[n - 1] {
                assert(reading_prefix(s, n - 1).contains(q));
            }
        }
    }
}

/// Sorted positions stand in reading order, each once, and are exactly those that were given.
pub proof fn law_sorted_positions(s: Seq<GridPosition>)
    ensures
        in_reading_order(sorted_positions(s)),
        forall|q: GridPosition| #[trigger] sorted_positions(s).contains(q) <==> s.contains(q),
{
    lemma_reading_prefix(s, s.len() as int);
    assert forall|q: GridPosition| #[trigger] sorted_positions(s).contains(q) <==> s.contains(q) by {
        if s.contains(q) {
            let i = choose|i: int| 0 <= i < s.len() && s[i] == q;
            assert(s[i] == q);
        }
    }
}

/// The positions of the list in reading order, each once.
pub fn sort_positions(list: &Vec<GridPosition>) -> (r: Vec<GridPosition>)
    ensures
        r@ == sorted_positions(list@),
{
    let mut r: Vec<GridPosition> = Vec::new();
    let mut n: usize = 0;
    while n < list.len()
        invariant
            n <= list.len(),
            r@ == reading_prefix(list@, n as int),
        decreases list.len() - n,
    {
        let p = list[n];
        let ghost s = r@;
        proof {
            lemma_reading_slot(s, p, s.len() as int);
        }
        let mut k: usize = r.len();
        while k > 0 && !reads_before(r[k - 1], p)
            invariant
                r@ == s,
                k <= s.len(),
                reading_slot(s, p, s.len() as int) == reading_slot(s, p, k as int),
            decreases k,
        {
            k -= 1;
        }
        let known: bool = k < r.len() && r[k] == p;
        if !known {
            r.insert(k, p);
        }
        n += 1;
    }
    r
}

} // verus!
