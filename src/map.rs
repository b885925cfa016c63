//! The dungeon level: a grid of tiles.

use vstd::prelude::*;
use crate::components::Position;

verus! {

#[derive(Clone, Copy, Debug, PartialEq, Eq, Structural)]
pub enum TileType {
    Wall,
    Floor,
    DownStairs,
    BossSpawner,
    FinalDoor,
    MacGuffinSpawner,
}

/// A `width` by `height` grid of tiles, stored row by row.
pub struct DungeonMap {
    pub tiles: Vec<TileType>,
    pub width: i32,
    pub height: i32,
}

impl DungeonMap {
    pub open spec fn wf(&self) -> bool {
        &&& self.width >= 1
        &&& self.height >= 1
        &&& self.tiles@.len() == self.width * self.height
    }

    pub open spec fn in_bounds(&self, x: int, y: int) -> bool {
        0 <= x < self.width && 0 <= y < self.height
    }

    pub open spec fn idx(&self, x: int, y: int) -> int {
        y * self.width + x
    }

    /// Whether the tile at `(x, y)` is a wall.
    pub open spec fn wall_at(&self, x: int, y: int) -> bool {
        self.tiles@[self.idx(x, y)] == TileType::Wall
    }

    /// The interior: every tile but the outer ring.
    pub open spec fn interior(&self, x: int, y: int) -> bool {
        0 < x < self.width - 1 && 0 < y < self.height - 1
    }

    proof fn lemma_idx_in_range(&self, x: int, y: int)
        requires
            self.wf(),
            self.in_bounds(x, y),
        ensures
            0 <= self.idx(x, y) < self.tiles@.len(),
    {
        assert(0 <= y * self.width) by (nonlinear_arith)
            requires 0 <= y, 1 <= self.width;
        assert(y * self.width + self.width <= self.width * self.height) by (nonlinear_arith)
            requires y + 1 <= self.height, 1 <= self.width;
    }

    /// The index of the tile at `(x, y)`.
    pub fn xy_idx(&self, x: i32, y: i32) -> (r: usize)
        requires
            self.wf(),
            self.in_bounds(x as int, y as int),
        ensures
            r == self.idx(x as int, y as int),
            r < self.tiles@.len(),
    {
        proof {
            self.lemma_idx_in_range(x as int, y as int);
        }
        let n = self.tiles.len();
        let row = y as usize;
        let w = self.width as usize;
        assert(row * w <= self.idx(x as int, y as int));
        let base = row * w;
        base + (x as usize)
    }

    pub fn is_wall(&self, x: i32, y: i32) -> (r: bool)
        requires
            self.wf(),
            self.in_bounds(x as int, y as int),
        ensures
            r == self.wall_at(x as int, y as int),
    {
        let i = self.xy_idx(x, y);
        self.tiles[i] == TileType::Wall
    }
}

impl DungeonMap {
    /// Where a random teleport can land: columns `2..=width-1`, rows
    /// `2..=height-1`.
    pub open spec fn reachable(&self, x: int, y: int) -> bool {
        2 <= x <= self.width - 1 && 2 <= y <= self.height - 1
    }

    /// The non-wall tiles of row `y` with `2 <= x < n`, left to right.
    pub open spec fn open_in_row(&self, y: int, n: int) -> Seq<Position>
        decreases n,
    {
        if n <= 2 {
            Seq::empty()
        } else if !self.wall_at(n - 1, y) {
            self.open_in_row(y, n - 1).push(Position { x: (n - 1) as i32, y: y as i32 })
        } else {
            self.open_in_row(y, n - 1)
        }
    }

    /// The reachable non-wall tiles of rows `2 <= y < m`, row by row.
    pub open spec fn open_rows(&self, m: int) -> Seq<Position>
        decreases m,
    {
        if m <= 2 {
            Seq::empty()
        } else {
            self.open_rows(m - 1) + self.open_in_row(m - 1, self.width as int)
        }
    }

    /// Every reachable tile that is not a wall, row by row.
    pub open spec fn open_tiles_spec(&self) -> Seq<Position> {
        self.open_rows(self.height as int)
    }

    proof fn lemma_open_in_row(&self, y: int, n: int)
        requires
            self.wf(),
            2 <= y <= self.height - 1,
            n <= self.width,
        ensures
            forall|k: int| 0 <= k < self.open_in_row(y, n).len() ==> {
                let p = #[trigger] self.open_in_row(y, n)[k];
                &&& self.reachable(p.x as int, p.y as int)
                &&& !self.wall_at(p.x as int, p.y as int)
            },
        decreases n,
    {
        if n > 2 {
            self.lemma_open_in_row(y, n - 1);
            let a = self.open_in_row(y, n - 1);
            let q = Position { x: (n - 1) as i32, y: y as i32 };
            assert(q.x as int == n - 1 && q.y as int == y);
            if !self.wall_at(n - 1, y) {
                assert forall|k: int| 0 <= k < a.push(q).len() implies {
                    let p = #[trigger] a.push(q)[k];
                    &&& self.reachable(p.x as int, p.y as int)
                    &&& !self.wall_at(p.x as int, p.y as int)
                } by {
                    if k < a.len() {
                        assert(a.push(q)[k] == a[k]);
                    }
                }
            }
        }
    }

    proof fn lemma_open_rows(&self, m: int)
        requires
            self.wf(),
            m <= self.height,
        ensures
            forall|k: int| 0 <= k < self.open_rows(m).len() ==> {
                let p = #[trigger] self.open_rows(m)[k];
                &&& self.reachable(p.x as int, p.y as int)
                &&& !self.wall_at(p.x as int, p.y as int)
            },
        decreases m,
    {
        if m > 2 {
            self.lemma_open_rows(m - 1);
            self.lemma_open_in_row(m - 1, self.width as int);
            let a = self.open_rows(m - 1);
            let b = self.open_in_row(m - 1, self.width as int);
            assert forall|k: int| 0 <= k < (a + b).len() implies {
                let p = #[trigger] (a + b)[k];
                &&& self.reachable(p.x as int, p.y as int)
                &&& !self.wall_at(p.x as int, p.y as int)
            } by {
                if k >= a.len() {
                    assert((a + b)[k] == b[k - a.len()]);
                }
            }
        }
    }

    /// Every open tile is reachable and not a wall.
    pub proof fn lemma_open_tiles(&self)
        requires
            self.wf(),
        ensures
            forall|k: int| 0 <= k < self.open_tiles_spec().len() ==> {
                let p = #[trigger] self.open_tiles_spec()[k];
                &&& self.reachable(p.x as int, p.y as int)
                &&& !self.wall_at(p.x as int, p.y as int)
            },
    {
        self.lemma_open_rows(self.height as int);
    }

    /// The reachable tiles that are not walls, row by row.
    pub fn open_tiles(&self) -> (r: Vec<Position>)
        requires
            self.wf(),
        ensures
            r@ == self.open_tiles_spec(),
    {
        let mut r: Vec<Position> = Vec::new();
        let mut y: i32 = 2;
        if self.height < 2 {
            return r;
        }
        while y < self.height
            invariant
                self.wf(),
                2 <= y <= self.height,
                r@ == self.open_rows(y as int),
            decreases self.height - y,
        {
            let ghost before = r@;
            let mut x: i32 = 2;
            if self.width >= 2 {
                while x < self.width
                    invariant
                        self.wf(),
                        2 <= y < self.height,
                        2 <= x <= self.width,
                        r@ == before + self.open_in_row(y as int, x as int),
                    decreases self.width - x,
                {
                    if !self.is_wall(x, y) {
                        r.push(Position { x, y });
                        assert(r@ =~= before + self.open_in_row(y as int, x + 1));
                    }
                    x = x + 1;
                }
                assert(r@ == self.open_rows(y + 1));
            } else {
                assert(self.open_in_row(y as int, self.width as int) =~= Seq::<Position>::empty());
                assert(r@ =~= self.open_rows(y + 1));
            }
            y = y + 1;
        }
        r
    }
}

} // verus!
