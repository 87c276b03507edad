use vstd::prelude::*;
use vstd::arithmetic::div_mod::{lemma_fundamental_div_mod, lemma_fundamental_div_mod_converse};
use crate::room::Room;

verus! {

/// The kind of terrain on a tile.
#[derive(Clone, Copy, PartialEq, Eq, Structural, Debug)]
pub enum TileType {
    Wall,
    Floor,
}

impl TileType {
    /// Whether actors can stand on and move through the tile.
    pub open spec fn walkable(self) -> bool {
        match self {
            TileType::Wall => false,
            TileType::Floor => true,
        }
    }

    pub fn is_walkable(&self) -> (r: bool)
        ensures
            r == self.walkable(),
    {
        match self {
            TileType::Wall => false,
            TileType::Floor => true,
        }
    }
}

/// The dungeon level: its tiles in row-major order, the rooms carved into it, what the player
/// has explored and sees now, and the occupancy of each tile (terrain or blocking actor, and
/// the identifiers of the actors that stand on it).
pub struct GameMap {
    pub tiles: Vec<TileType>,
    pub rooms: Vec<Room>,
    pub width: i32,
    pub height: i32,
    pub explored: Vec<bool>,
    pub visible: Vec<bool>,
    pub blocked: Vec<bool>,
    pub tile_entities: Vec<Vec<usize>>,
}

/// `y * w + x` lies in `0..w * h` and decodes back to `(x, y)`.
pub proof fn lemma_index_decodes(w: int, h: int, x: int, y: int)
    requires
        0 <= x < w,
        0 <= y < h,
    ensures
        0 <= y * w + x < w * h,
        (y * w + x) % w == x,
        (y * w + x) / w == y,
{
    assert(0 <= y * w + x < w * h) by (nonlinear_arith)
        requires 0 <= x < w, 0 <= y < h;
    lemma_fundamental_div_mod_converse(y * w + x, w, y, x);
}

/// An index in `0..w * h` has a column in `0..w` and a row in `0..h` that encode back to it.
pub proof fn lemma_index_encodes(w: int, h: int, i: int)
    requires
        0 < w,
        0 < h,
        0 <= i < w * h,
    ensures
        0 <= i % w < w,
        0 <= i / w < h,
        (i / w) * w + i % w == i,
{
    lemma_fundamental_div_mod(i, w);
    let q = i / w;
    let r = i % w;
    assert(0 <= r < w);
    assert(w * q + r == i);
    assert(0 <= q < h) by (nonlinear_arith)
        requires w * q + r == i, 0 <= r < w, 0 <= i < w * h, 0 < w;
    assert(q * w == w * q) by (nonlinear_arith);
}

/// Whether `(px, py)` lies on the row `y` between columns `x0` and `x1`, both included.
pub open spec fn on_row_segment(x0: int, x1: int, y: int, px: int, py: int) -> bool {
    py == y && ((x0 <= px <= x1) || (x1 <= px <= x0))
}

/// Whether `(px, py)` lies on the column `x` between rows `y0` and `y1`, both included.
pub open spec fn on_column_segment(y0: int, y1: int, x: int, px: int, py: int) -> bool {
    px == x && ((y0 <= py <= y1) || (y1 <= py <= y0))
}

impl GameMap {
    /// Number of tiles.
    pub open spec fn size(self) -> int {
        self.width * self.height
    }

    /// The per-tile arrays all cover the grid, and tile indices fit in `i32`.
    pub open spec fn wf(self) -> bool {
        &&& 0 < self.width
        &&& 0 < self.height
        &&& self.width * self.height <= i32::MAX
        &&& self.tiles@.len() == self.size()
        &&& self.explored@.len() == self.size()
        &&& self.visible@.len() == self.size()
        &&& self.blocked@.len() == self.size()
        &&& self.tile_entities@.len() == self.size()
    }

    /// Row-major index of tile `(x, y)`.
    pub open spec fn index_of(self, x: int, y: int) -> int {
        y * self.width + x
    }

    /// Column of the tile with index `i`.
    pub open spec fn col(self, i: int) -> int {
        i % (self.width as int)
    }

    /// Row of the tile with index `i`.
    pub open spec fn row(self, i: int) -> int {
        i / (self.width as int)
    }

    /// Whether `(x, y)` is a tile of the grid.
    pub open spec fn in_grid(self, x: int, y: int) -> bool {
        0 <= x < self.width && 0 <= y < self.height
    }

    /// Whether `(x, y)` lies strictly inside the outer ring of the grid.
    pub open spec fn interior(self, x: int, y: int) -> bool {
        1 <= x < self.width - 1 && 1 <= y < self.height - 1
    }

    /// Whether `(x, y)` lies on the outer ring of the grid.
    pub open spec fn on_border(self, x: int, y: int) -> bool {
        self.in_grid(x, y) && (x == 0 || x == self.width - 1 || y == 0 || y == self.height - 1)
    }

    /// Whether `(x, y)` is a floor tile of the grid.
    pub open spec fn floor_at(self, x: int, y: int) -> bool {
        self.in_grid(x, y) && self.tiles@[self.index_of(x, y)] == TileType::Floor
    }

    /// Linear index of tile `(x, y)`.
    pub fn xy_idx(&self, x: i32, y: i32) -> (r: usize)
        requires
            self.wf(),
            self.in_grid(x as int, y as int),
        ensures
            r == self.index_of(x as int, y as int),
            r < self.size(),
    {
        proof {
            lemma_index_decodes(self.width as int, self.height as int, x as int, y as int);
        }
        ((y * self.width) + x) as usize
    }

    /// Tile coordinates `(x, y)` of a linear index.
    pub fn idx_xy(&self, idx: usize) -> (r: (i32, i32))
        requires
            self.wf(),
            idx < self.size(),
        ensures
            r.0 == self.col(idx as int),
            r.1 == self.row(idx as int),
            self.in_grid(r.0 as int, r.1 as int),
            self.index_of(r.0 as int, r.1 as int) == idx,
    {
        proof {
            lemma_index_encodes(self.width as int, self.height as int, idx as int);
        }
        let x = idx as i32 % self.width;
        let y = idx as i32 / self.width;
        (x, y)
    }

    /// The boundary predicate: whether `(x, y)` lies strictly inside the outer wall ring.
    pub fn in_bounds(&self, x: i32, y: i32) -> (r: bool)
        ensures
            r == self.interior(x as int, y as int),
    {
        1 <= x && (x as i64) < (self.width as i64) - 1 && 1 <= y && (y as i64) < (self.height as i64) - 1
    }

    /// Whether the tile blocks sight.
    pub fn is_opaque(&self, idx: usize) -> (r: bool)
        requires
            idx < self.tiles@.len(),
        ensures
            r == (self.tiles@[idx as int] == TileType::Wall),
    {
        self.tiles[idx] == TileType::Wall
    }

    /// Everything but the tiles is the same in `self` and `other`.
    pub open spec fn same_but_tiles(self, other: GameMap) -> bool {
        &&& self.rooms@ == other.rooms@
        &&& self.width == other.width
        &&& self.height == other.height
        &&& self.explored@ == other.explored@
        &&& self.visible@ == other.visible@
        &&& self.blocked@ == other.blocked@
        &&& self.tile_entities@ == other.tile_entities@
    }

    /// Turns every tile of the room, edges included, into floor.
    pub fn carve_room(&mut self, room: &Room)
        requires
            old(self).wf(),
            0 <= room.x0,
            room.x1 < old(self).width,
            0 <= room.y0,
            room.y1 < old(self).height,
        ensures
            final(self).wf(),
            final(self).same_but_tiles(*old(self)),
            forall|i: int|
                0 <= i < old(self).size() ==> #[trigger] final(self).tiles@[i] == if room.contains(
                    old(self).col(i),
                    old(self).row(i),
                ) {
                    TileType::Floor
                } else {
                    old(self).tiles@[i]
                },
    {
        let ghost w = self.width as int;
        let ghost h = self.height as int;
        let mut y = room.y0;
        while y <= room.y1
            invariant
                self.wf(),
                self.same_but_tiles(*old(self)),
                w == self.width,
                h == self.height,
                0 <= room.x0,
                room.x1 < w,
                0 <= room.y0 <= y,
                room.y1 < h,
                y <= room.y1 + 1 || y == room.y0,
                forall|i: int|
                    0 <= i < w * h ==> #[trigger] self.tiles@[i] == if room.x0 <= i % w <= room.x1
                        && room.y0 <= i / w < y {
                        TileType::Floor
                    } else {
                        old(self).tiles@[i]
                    },
            decreases room.y1 + 1 - y,
        {
            let mut x = room.x0;
            while x <= room.x1
                invariant
                    self.wf(),
                    self.same_but_tiles(*old(self)),
                    w == self.width,
                    h == self.height,
                    0 <= room.x0 <= x,
                    room.x1 < w,
                    0 <= room.y0 <= y <= room.y1,
                    room.y1 < h,
                    x <= room.x1 + 1 || x == room.x0,
                    forall|i: int|
                        0 <= i < w * h ==> #[trigger] self.tiles@[i] == if (room.x0 <= i % w
                            <= room.x1 && room.y0 <= i / w < y) || (i / w == y && room.x0 <= i % w
                            < x) {
                            TileType::Floor
                        } else {
                            old(self).tiles@[i]
                        },
                decreases room.x1 + 1 - x,
            {
                let idx = self.xy_idx(x, y);
                proof {
                    lemma_index_decodes(w, h, x as int, y as int);
                }
                self.tiles.set(idx, TileType::Floor);
                proof {
                    assert forall|i: int| 0 <= i < w * h implies #[trigger] self.tiles@[i] == if (
                    room.x0 <= i % w <= room.x1 && room.y0 <= i / w < y) || (i / w == y && room.x0
                        <= i % w < x + 1) {
                        TileType::Floor
                    } else {
                        old(self).tiles@[i]
                    } by {
                        lemma_index_encodes(w, h, i);
                        if i != idx {
                            assert(!(i / w == y && i % w == x));
                        }
                    }
                }
                x = x + 1;
            }
            y = y + 1;
        }
    }

    /// Carves a corridor from x0 to x1 (inclusive) at row y.
    pub fn carve_corridor_horizontal(&mut self, x0: i32, x1: i32, y: i32)
        requires
            old(self).wf(),
            old(self).in_grid(x0 as int, y as int),
            old(self).in_grid(x1 as int, y as int),
        ensures
            final(self).wf(),
            final(self).same_but_tiles(*old(self)),
            forall|i: int|
                0 <= i < old(self).size() ==> #[trigger] final(self).tiles@[i] == if on_row_segment(
                    x0 as int,
                    x1 as int,
                    y as int,
                    old(self).col(i),
                    old(self).row(i),
                ) {
                    TileType::Floor
                } else {
                    old(self).tiles@[i]
                },
    {
        let ghost w = self.width as int;
        let ghost h = self.height as int;
        let lo = if x0 <= x1 { x0 } else { x1 };
        let hi = if x0 <= x1 { x1 } else { x0 };
        let mut x = lo;
        while x <= hi
            invariant
                self.wf(),
                self.same_but_tiles(*old(self)),
                w == self.width,
                h == self.height,
                0 <= lo <= x <= hi + 1,
                hi < w,
                0 <= y < h,
                lo == if x0 <= x1 { x0 } else { x1 },
                hi == if x0 <= x1 { x1 } else { x0 },
                forall|i: int|
                    0 <= i < w * h ==> #[trigger] self.tiles@[i] == if i / w == y && lo <= i % w < x {
                        TileType::Floor
                    } else {
                        old(self).tiles@[i]
                    },
            decreases hi + 1 - x,
        {
            let idx = self.xy_idx(x, y);
            proof {
                lemma_index_decodes(w, h, x as int, y as int);
            }
            self.tiles.set(idx, TileType::Floor);
            proof {
                assert forall|i: int| 0 <= i < w * h implies #[trigger] self.tiles@[i] == if i / w == y
                    && lo <= i % w < x + 1 {
                    TileType::Floor
                } else {
                    old(self).tiles@[i]
                } by {
                    lemma_index_encodes(w, h, i);
                    if i != idx {
                        assert(!(i / w == y && i % w == x));
                    }
                }
            }
            x = x + 1;
        }
    }

    /// Carves a corridor from y0 to y1 (inclusive) at column x.
    pub fn carve_corridor_vertical(&mut self, y0: i32, y1: i32, x: i32)
        requires
            old(self).wf(),
            old(self).in_grid(x as int, y0 as int),
            old(self).in_grid(x as int, y1 as int),
        ensures
            final(self).wf(),
            final(self).same_but_tiles(*old(self)),
            forall|i: int|
                0 <= i < old(self).size() ==> #[trigger] final(self).tiles@[i] == if on_column_segment(
                    y0 as int,
                    y1 as int,
                    x as int,
                    old(self).col(i),
                    old(self).row(i),
                ) {
                    TileType::Floor
                } else {
                    old(self).tiles@[i]
                },
    {
        let ghost w = self.width as int;
        let ghost h = self.height as int;
        let lo = if y0 <= y1 { y0 } else { y1 };
        let hi = if y0 <= y1 { y1 } else { y0 };
        let mut y = lo;
        while y <= hi
            invariant
                self.wf(),
                self.same_but_tiles(*old(self)),
                w == self.width,
                h == self.height,
                0 <= lo <= y <= hi + 1,
                hi < h,
                0 <= x < w,
                lo == if y0 <= y1 { y0 } else { y1 },
                hi == if y0 <= y1 { y1 } else { y0 },
                forall|i: int|
                    0 <= i < w * h ==> #[trigger] self.tiles@[i] == if i % w == x && lo <= i / w < y {
                        TileType::Floor
                    } else {
                        old(self).tiles@[i]
                    },
            decreases hi + 1 - y,
        {
            let idx = self.xy_idx(x, y);
            proof {
                lemma_index_decodes(w, h, x as int, y as int);
            }
            self.tiles.set(idx, TileType::Floor);
            proof {
                assert forall|i: int| 0 <= i < w * h implies #[trigger] self.tiles@[i] == if i % w == x
                    && lo <= i / w < y + 1 {
                    TileType::Floor
                } else {
                    old(self).tiles@[i]
                } by {
                    lemma_index_encodes(w, h, i);
                    if i != idx {
                        assert(!(i / w == y && i % w == x));
                    }
                }
            }
            y = y + 1;
        }
    }

    /// Computes the blocked array from the terrain alone: a tile is blocked exactly when it is
    /// not walkable. Blocking actors are not taken into account.
    pub fn compute_blocked(&mut self)
        requires
            old(self).wf(),
        ensures
            final(self).wf(),
            final(self).tiles@ == old(self).tiles@,
            final(self).rooms@ == old(self).rooms@,
            final(self).width == old(self).width,
            final(self).height == old(self).height,
            final(self).explored@ == old(self).explored@,
            final(self).visible@ == old(self).visible@,
            final(self).tile_entities@ == old(self).tile_entities@,
            forall|i: int|
                0 <= i < old(self).size() ==> #[trigger] final(self).blocked@[i] == !old(self).tiles@[i].walkable(),
    {
        let n = self.tiles.len();
        let mut idx: usize = 0;
        while idx < n
            invariant
                self.wf(),
                n == self.size(),
                idx <= n,
                self.tiles@ == old(self).tiles@,
                self.rooms@ == old(self).rooms@,
                self.width == old(self).width,
                self.height == old(self).height,
                self.explored@ == old(self).explored@,
                self.visible@ == old(self).visible@,
                self.tile_entities@ == old(self).tile_entities@,
                forall|i: int| 0 <= i < idx ==> #[trigger] self.blocked@[i] == !self.tiles@[i].walkable(),
            decreases n - idx,
        {
            let walkable = self.tiles[idx].is_walkable();
            self.blocked.set(idx, !walkable);
            idx = idx + 1;
        }
    }

    /// Empties the occupant list of every tile.
    pub fn clear_entities(&mut self)
        requires
            old(self).wf(),
        ensures
            final(self).wf(),
            final(self).tiles@ == old(self).tiles@,
            final(self).rooms@ == old(self).rooms@,
            final(self).width == old(self).width,
            final(self).height == old(self).height,
            final(self).explored@ == old(self).explored@,
            final(self).visible@ == old(self).visible@,
            final(self).blocked@ == old(self).blocked@,
            forall|i: int|
                0 <= i < old(self).size() ==> (#[trigger] final(self).tile_entities@[i])@.len() == 0,
    {
        let n = self.tile_entities.len();
        let mut idx: usize = 0;
        while idx < n
            invariant
                self.wf(),
                n == self.size(),
                idx <= n,
                self.tiles@ == old(self).tiles@,
                self.rooms@ == old(self).rooms@,
                self.width == old(self).width,
                self.height == old(self).height,
                self.explored@ == old(self).explored@,
                self.visible@ == old(self).visible@,
                self.blocked@ == old(self).blocked@,
                forall|i: int| 0 <= i < idx ==> (#[trigger] self.tile_entities@[i])@.len() == 0,
            decreases n - idx,
        {
            self.tile_entities[idx].clear();
            idx = idx + 1;
        }
    }

    /// Whether tile `(x, y)` is blocked, by its terrain or by a blocking actor, as of the last
    /// rebuild of the occupancy.
    pub fn is_blocked(&self, x: i32, y: i32) -> (r: bool)
        requires
            self.wf(),
            self.in_grid(x as int, y as int),
        ensures
            r == self.blocked@[self.index_of(x as int, y as int)],
    {
        let idx = self.xy_idx(x, y);
        self.blocked[idx]
    }

    /// The actors standing on tile `(x, y)` as of the last rebuild of the occupancy.
    pub fn occupants_at(&self, x: i32, y: i32) -> (r: &Vec<usize>)
        requires
            self.wf(),
            self.in_grid(x as int, y as int),
        ensures
            *r == self.tile_entities@[self.index_of(x as int, y as int)],
    {
        let idx = self.xy_idx(x, y);
        &self.tile_entities[idx]
    }
}

} // verus!
