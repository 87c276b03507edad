use vstd::prelude::*;
use crate::map::{GameMap, lemma_index_decodes};

verus! {

/// Cost of a step along a row or a column, in ten-thousandths of a tile.
pub const ORTHOGONAL_COST: u32 = 10000;

/// Cost of a diagonal step, in ten-thousandths of a tile: the square root of two, rounded to
/// four decimals.
pub const DIAGONAL_COST: u32 = 14142;

/// The eight directions in the order in which exits are listed: the four orthogonal ones
/// (right, left, down, up), then the four diagonal ones.
pub open spec fn direction(k: int) -> (int, int) {
    if k == 0 {
        (1, 0)
    } else if k == 1 {
        (-1, 0)
    } else if k == 2 {
        (0, 1)
    } else if k == 3 {
        (0, -1)
    } else if k == 4 {
        (1, 1)
    } else if k == 5 {
        (-1, -1)
    } else if k == 6 {
        (-1, 1)
    } else {
        (1, -1)
    }
}

/// A step to one of the eight neighbouring tiles.
pub open spec fn is_unit_step(d: (int, int)) -> bool {
    -1 <= d.0 <= 1 && -1 <= d.1 <= 1 && d != (0int, 0int)
}

/// A step to one of the four tiles that share an edge.
pub open spec fn is_orthogonal_step(d: (int, int)) -> bool {
    is_unit_step(d) && (d.0 == 0 || d.1 == 0)
}

/// The cost of one step: orthogonal steps cost `ORTHOGONAL_COST`, the others `DIAGONAL_COST`.
pub open spec fn step_cost(d: (int, int)) -> int {
    if d.0 == 0 || d.1 == 0 {
        ORTHOGONAL_COST as int
    } else {
        DIAGONAL_COST as int
    }
}

/// The total cost of a sequence of steps.
pub open spec fn path_cost(steps: Seq<(int, int)>) -> int
    decreases steps.len(),
{
    if steps.len() == 0 {
        0
    } else {
        path_cost(steps.drop_last()) + step_cost(steps.last())
    }
}

/// Whether some step of the sequence is diagonal.
pub open spec fn has_diagonal(steps: Seq<(int, int)>) -> bool {
    exists|k: int| 0 <= k < steps.len() && !is_orthogonal_step(#[trigger] steps[k])
}

/// A walk made of orthogonal steps never costs more than a walk with as many steps of any
/// kind, and costs strictly less when the other walk takes a diagonal step.
pub proof fn lemma_orthogonal_walk_costs_least(orthogonal: Seq<(int, int)>, other: Seq<(int, int)>)
    requires
        orthogonal.len() == other.len(),
        forall|k: int| 0 <= k < orthogonal.len() ==> is_orthogonal_step(#[trigger] orthogonal[k]),
        forall|k: int| 0 <= k < other.len() ==> is_unit_step(#[trigger] other[k]),
    ensures
        path_cost(orthogonal) <= path_cost(other),
        has_diagonal(other) ==> path_cost(orthogonal) < path_cost(other),
    decreases orthogonal.len(),
{
    if orthogonal.len() > 0 {
        let a = orthogonal.drop_last();
        let b = other.drop_last();
        assert forall|k: int| 0 <= k < a.len() implies is_orthogonal_step(#[trigger] a[k]) by {
            assert(a[k] == orthogonal[k]);
        }
        assert forall|k: int| 0 <= k < b.len() implies is_unit_step(#[trigger] b[k]) by {
            assert(b[k] == other[k]);
        }
        lemma_orthogonal_walk_costs_least(a, b);
        assert(is_orthogonal_step(orthogonal[orthogonal.len() - 1]));
        if has_diagonal(other) {
            let k = choose|k: int| 0 <= k < other.len() && !is_orthogonal_step(#[trigger] other[k]);
            if k < b.len() {
                assert(b[k] == other[k]);
                assert(has_diagonal(b));
            } else {
                assert(is_unit_step(other[k]));
            }
        }
    }
}

impl GameMap {
    /// Whether the neighbour of tile `origin` in direction `k` is an exit: it lies inside
    /// the outer ring and is not blocked.
    pub open spec fn exit_open(self, origin: int, k: int) -> bool {
        let x = self.col(origin) + direction(k).0;
        let y = self.row(origin) + direction(k).1;
        self.interior(x, y) && !self.blocked@[self.index_of(x, y)]
    }

    /// The exits among the first `k` directions from tile `origin`, each with the index of
    /// the tile it leads to and the cost of the step.
    pub open spec fn exits_upto(self, origin: int, k: int) -> Seq<(usize, u32)>
        decreases k,
    {
        if k <= 0 {
            Seq::empty()
        } else {
            let d = direction(k - 1);
            let rest = self.exits_upto(origin, k - 1);
            if self.exit_open(origin, k - 1) {
                rest.push(
                    (
                        self.index_of(self.col(origin) + d.0, self.row(origin) + d.1) as usize,
                        step_cost(d) as u32,
                    ),
                )
            } else {
                rest
            }
        }
    }

    /// The exits of tile `origin` in the order in which `available_exits` lists them.
    pub open spec fn exits(self, origin: int) -> Seq<(usize, u32)> {
        self.exits_upto(origin, 8)
    }
}

/// The direction of index `k`, in the order of `direction`.
fn direction_of(k: usize) -> (r: (i32, i32))
    requires
        k < 8,
    ensures
        r.0 == direction(k as int).0,
        r.1 == direction(k as int).1,
{
    if k == 0 {
        (1, 0)
    } else if k == 1 {
        (-1, 0)
    } else if k == 2 {
        (0, 1)
    } else if k == 3 {
        (0, -1)
    } else if k == 4 {
        (1, 1)
    } else if k == 5 {
        (-1, -1)
    } else if k == 6 {
        (-1, 1)
    } else {
        (1, -1)
    }
}

impl GameMap {
    /// From the tile with index `origin`, the tiles an actor can step to and the cost of each
    /// step: the eight neighbours that lie inside the outer ring and are not blocked,
    /// orthogonal ones first.
    pub fn available_exits(&self, origin: usize) -> (exits: Vec<(usize, u32)>)
        requires
            self.wf(),
            origin < self.size(),
        ensures
            exits@ == self.exits(origin as int),
            forall|k: int|
                0 <= k < exits@.len() ==> {
                    let e = #[trigger] exits@[k];
                    let d = (self.col(e.0 as int) - self.col(origin as int), self.row(e.0 as int) - self.row(
                        origin as int,
                    ));
                    &&& (e.0 as int) < self.size()
                    &&& self.interior(self.col(e.0 as int), self.row(e.0 as int))
                    &&& !self.blocked@[e.0 as int]
                    &&& is_unit_step(d)
                    &&& e.1 == step_cost(d)
                    &&& (is_orthogonal_step(d) ==> e.1 == ORTHOGONAL_COST)
                    &&& (!is_orthogonal_step(d) ==> e.1 == DIAGONAL_COST)
                },
    {
        let ghost w = self.width as int;
        let ghost h = self.height as int;
        let (ox, oy) = self.idx_xy(origin);
        let mut exits: Vec<(usize, u32)> = Vec::new();
        let mut k: usize = 0;
        while k < 8
            invariant
                self.wf(),
                w == self.width,
                h == self.height,
                origin < self.size(),
                ox == self.col(origin as int),
                oy == self.row(origin as int),
                self.in_grid(ox as int, oy as int),
                k <= 8,
                exits@ == self.exits_upto(origin as int, k as int),
                forall|j: int|
                    0 <= j < exits@.len() ==> {
                        let e = #[trigger] exits@[j];
                        let d = (self.col(e.0 as int) - ox, self.row(e.0 as int) - oy);
                        &&& (e.0 as int) < self.size()
                        &&& self.interior(self.col(e.0 as int), self.row(e.0 as int))
                        &&& !self.blocked@[e.0 as int]
                        &&& is_unit_step(d)
                        &&& e.1 == step_cost(d)
                        &&& (is_orthogonal_step(d) ==> e.1 == ORTHOGONAL_COST)
                        &&& (!is_orthogonal_step(d) ==> e.1 == DIAGONAL_COST)
                    },
            decreases 8 - k,
        {
            let (dx, dy) = direction_of(k);
            let x = ox + dx;
            let y = oy + dy;
            if self.in_bounds(x, y) {
                let idx = self.xy_idx(x, y);
                if !self.blocked[idx] {
                    let cost = if dx == 0 || dy == 0 { ORTHOGONAL_COST } else { DIAGONAL_COST };
                    proof {
                        lemma_index_decodes(w, h, x as int, y as int);
                    }
                    exits.push((idx, cost));
                }
            }
            k = k + 1;
        }
        exits
    }
}

} // verus!
