use vstd::prelude::*;
use bracket_lib::prelude::RandomNumberGenerator;
use crate::map::{GameMap, TileType, on_row_segment, on_column_segment, lemma_index_decodes, lemma_index_encodes};
use crate::rng::{fresh_rng, random_in_range};
use crate::room::Room;

verus! {

/// Number of room placements tried when a level is generated.
pub const MAX_ROOMS: i32 = 12;

/// Smallest side length drawn for a room.
pub const MIN_SIZE: i32 = 6;

/// Bound on the side length drawn for a room (excluded).
pub const MAX_SIZE: i32 = 12;

/// Smallest width and height of a level: a room of the largest size must fit with a margin.
pub const MIN_DIMENSION: i32 = 15;

/// Whether two tiles are the same or share an edge.
pub open spec fn steps_to(a: (int, int), b: (int, int)) -> bool {
    ||| a.0 == b.0 && (a.1 == b.1 || a.1 == b.1 + 1 || a.1 + 1 == b.1)
    ||| a.1 == b.1 && (a.0 == b.0 + 1 || a.0 + 1 == b.0)
}

/// Whether `(px, py)` is a tile of the L-shaped corridor from `a` to `b`: along the row of `a`
/// and then the column of `b` when `horizontal_first`, else along the column of `a` and then
/// the row of `b`.
pub open spec fn on_corridor(a: (int, int), b: (int, int), horizontal_first: bool, px: int, py: int) -> bool {
    if horizontal_first {
        on_row_segment(a.0, b.0, a.1, px, py) || on_column_segment(a.1, b.1, b.0, px, py)
    } else {
        on_column_segment(a.1, b.1, a.0, px, py) || on_row_segment(a.0, b.0, b.1, px, py)
    }
}

impl GameMap {
    /// A non-empty walk over floor tiles, each step to the same tile or an edge neighbour.
    pub open spec fn is_floor_path(self, p: Seq<(int, int)>) -> bool {
        &&& p.len() > 0
        &&& forall|k: int| 0 <= k < p.len() ==> self.floor_at(#[trigger] p[k].0, p[k].1)
        &&& forall|k: int| 0 <= k < p.len() - 1 ==> steps_to(#[trigger] p[k], p[k + 1])
    }

    /// Whether a walk over floor tiles leads from `a` to `b`.
    pub open spec fn floor_connected(self, a: (int, int), b: (int, int)) -> bool {
        exists|p: Seq<(int, int)>| #[trigger] self.is_floor_path(p) && p[0] == a && p.last() == b
    }

    /// Every room center can be reached from every other one over floor tiles.
    pub open spec fn rooms_connected(self) -> bool {
        forall|i: int, j: int|
            0 <= i < self.rooms@.len() && 0 <= j < self.rooms@.len() ==> self.floor_connected(
                #[trigger] self.rooms@[i].center_of(),
                #[trigger] self.rooms@[j].center_of(),
            )
    }

    /// Every tile of the outer ring is a wall.
    pub open spec fn border_walled(self) -> bool {
        forall|i: int|
            0 <= i < self.size() && self.on_border(self.col(i), self.row(i)) ==> #[trigger] self.tiles@[i]
                == TileType::Wall
    }

    /// The room is not empty and lies strictly inside the outer ring.
    pub open spec fn room_inside(self, r: Room) -> bool {
        1 <= r.x0 <= r.x1 < self.width - 1 && 1 <= r.y0 <= r.y1 < self.height - 1
    }

    /// Every room lies strictly inside the outer ring.
    pub open spec fn rooms_inside(self) -> bool {
        forall|k: int| 0 <= k < self.rooms@.len() ==> self.room_inside(#[trigger] self.rooms@[k])
    }

    /// No two rooms overlap or touch.
    pub open spec fn rooms_disjoint(self) -> bool {
        forall|i: int, j: int|
            0 <= i < j < self.rooms@.len() ==> !(#[trigger] self.rooms@[i]).overlaps(
                #[trigger] self.rooms@[j],
            )
    }

    /// Every tile of every room is floor.
    pub open spec fn rooms_carved(self) -> bool {
        forall|k: int, x: int, y: int|
            0 <= k < self.rooms@.len() && (#[trigger] self.rooms@[k]).contains(x, y) ==> #[trigger] self.floor_at(x, y)
    }

    /// Same grid, and every floor tile of `self` is floor in `other`.
    pub open spec fn floor_grows_to(self, other: GameMap) -> bool {
        &&& self.width == other.width
        &&& self.height == other.height
        &&& forall|x: int, y: int| #[trigger] self.floor_at(x, y) ==> other.floor_at(x, y)
    }
}

proof fn lemma_path_grows(m1: GameMap, m2: GameMap, p: Seq<(int, int)>)
    requires
        m1.floor_grows_to(m2),
        m1.is_floor_path(p),
    ensures
        m2.is_floor_path(p),
{
    assert forall|k: int| 0 <= k < p.len() implies m2.floor_at(#[trigger] p[k].0, p[k].1) by {
        assert(m1.floor_at(p[k].0, p[k].1));
    }
}

proof fn lemma_connected_grows(m1: GameMap, m2: GameMap, a: (int, int), b: (int, int))
    requires
        m1.floor_grows_to(m2),
        m1.floor_connected(a, b),
    ensures
        m2.floor_connected(a, b),
{
    let p = choose|p: Seq<(int, int)>| #[trigger] m1.is_floor_path(p) && p[0] == a && p.last() == b;
    lemma_path_grows(m1, m2, p);
}

proof fn lemma_connected_trans(m: GameMap, a: (int, int), b: (int, int), c: (int, int))
    requires
        m.floor_connected(a, b),
        m.floor_connected(b, c),
    ensures
        m.floor_connected(a, c),
{
    let p = choose|p: Seq<(int, int)>| #[trigger] m.is_floor_path(p) && p[0] == a && p.last() == b;
    let q = choose|q: Seq<(int, int)>| #[trigger] m.is_floor_path(q) && q[0] == b && q.last() == c;
    let r = p + q;
    assert forall|k: int| 0 <= k < r.len() implies m.floor_at(#[trigger] r[k].0, r[k].1) by {
        if k < p.len() {
            assert(r[k] == p[k]);
        } else {
            assert(r[k] == q[k - p.len()]);
        }
    }
    assert forall|k: int| 0 <= k < r.len() - 1 implies steps_to(#[trigger] r[k], r[k + 1]) by {
        if k < p.len() - 1 {
            assert(r[k] == p[k] && r[k + 1] == p[k + 1]);
        } else if k == p.len() - 1 {
            assert(r[k] == p.last() && r[k + 1] == q[0]);
        } else {
            assert(r[k] == q[k - p.len()] && r[k + 1] == q[k + 1 - p.len()]);
        }
    }
    assert(m.is_floor_path(r));
    assert(r[0] == a);
    assert(r.last() == c);
}

proof fn lemma_connected_symm(m: GameMap, a: (int, int), b: (int, int))
    requires
        m.floor_connected(a, b),
    ensures
        m.floor_connected(b, a),
{
    let p = choose|p: Seq<(int, int)>| #[trigger] m.is_floor_path(p) && p[0] == a && p.last() == b;
    let r = p.reverse();
    assert forall|k: int| 0 <= k < r.len() implies m.floor_at(#[trigger] r[k].0, r[k].1) by {
        assert(r[k] == p[p.len() - 1 - k]);
    }
    assert forall|k: int| 0 <= k < r.len() - 1 implies steps_to(#[trigger] r[k], r[k + 1]) by {
        assert(r[k] == p[p.len() - 1 - k]);
        assert(r[k + 1] == p[p.len() - 2 - k]);
        assert(steps_to(p[p.len() - 2 - k], p[p.len() - 2 - k + 1]));
    }
    assert(m.is_floor_path(r));
    assert(r[0] == b);
    assert(r.last() == a);
}

proof fn lemma_connected_refl(m: GameMap, a: (int, int))
    requires
        m.floor_at(a.0, a.1),
    ensures
        m.floor_connected(a, a),
{
    let p = seq![a];
    assert(m.is_floor_path(p));
}

/// A row segment whose tiles are all floor connects its two ends.
proof fn lemma_row_connected(m: GameMap, x0: int, x1: int, y: int)
    requires
        forall|px: int, py: int| on_row_segment(x0, x1, y, px, py) ==> #[trigger] m.floor_at(px, py),
    ensures
        m.floor_connected((x0, y), (x1, y)),
{
    if x0 <= x1 {
        let p = Seq::new((x1 - x0 + 1) as nat, |k: int| (x0 + k, y));
        assert forall|k: int| 0 <= k < p.len() implies m.floor_at(#[trigger] p[k].0, p[k].1) by {
            assert(on_row_segment(x0, x1, y, x0 + k, y));
        }
        assert forall|k: int| 0 <= k < p.len() - 1 implies steps_to(#[trigger] p[k], p[k + 1]) by {}
        assert(m.is_floor_path(p));
        assert(p[0] == (x0, y));
        assert(p.last() == (x1, y));
    } else {
        let p = Seq::new((x0 - x1 + 1) as nat, |k: int| (x1 + k, y));
        assert forall|k: int| 0 <= k < p.len() implies m.floor_at(#[trigger] p[k].0, p[k].1) by {
            assert(on_row_segment(x0, x1, y, x1 + k, y));
        }
        assert forall|k: int| 0 <= k < p.len() - 1 implies steps_to(#[trigger] p[k], p[k + 1]) by {}
        assert(m.is_floor_path(p));
        assert(p[0] == (x1, y));
        assert(p.last() == (x0, y));
        lemma_connected_symm(m, (x1, y), (x0, y));
    }
}

/// A column segment whose tiles are all floor connects its two ends.
proof fn lemma_column_connected(m: GameMap, y0: int, y1: int, x: int)
    requires
        forall|px: int, py: int| on_column_segment(y0, y1, x, px, py) ==> #[trigger] m.floor_at(px, py),
    ensures
        m.floor_connected((x, y0), (x, y1)),
{
    if y0 <= y1 {
        let p = Seq::new((y1 - y0 + 1) as nat, |k: int| (x, y0 + k));
        assert forall|k: int| 0 <= k < p.len() implies m.floor_at(#[trigger] p[k].0, p[k].1) by {
            assert(on_column_segment(y0, y1, x, x, y0 + k));
        }
        assert forall|k: int| 0 <= k < p.len() - 1 implies steps_to(#[trigger] p[k], p[k + 1]) by {}
        assert(m.is_floor_path(p));
        assert(p[0] == (x, y0));
        assert(p.last() == (x, y1));
    } else {
        let p = Seq::new((y0 - y1 + 1) as nat, |k: int| (x, y1 + k));
        assert forall|k: int| 0 <= k < p.len() implies m.floor_at(#[trigger] p[k].0, p[k].1) by {
            assert(on_column_segment(y0, y1, x, x, y1 + k));
        }
        assert forall|k: int| 0 <= k < p.len() - 1 implies steps_to(#[trigger] p[k], p[k + 1]) by {}
        assert(m.is_floor_path(p));
        assert(p[0] == (x, y1));
        assert(p.last() == (x, y0));
        lemma_connected_symm(m, (x, y1), (x, y0));
    }
}

/// An L-shaped corridor whose tiles are all floor connects its two ends.
proof fn lemma_corridor_connected(m: GameMap, a: (int, int), b: (int, int), horizontal_first: bool)
    requires
        forall|px: int, py: int| on_corridor(a, b, horizontal_first, px, py) ==> #[trigger] m.floor_at(px, py),
    ensures
        m.floor_connected(a, b),
{
    if horizontal_first {
        assert forall|px: int, py: int| on_row_segment(a.0, b.0, a.1, px, py) implies #[trigger] m.floor_at(px, py) by {
            assert(on_corridor(a, b, horizontal_first, px, py));
        }
        assert forall|px: int, py: int| on_column_segment(a.1, b.1, b.0, px, py) implies #[trigger] m.floor_at(px, py) by {
            assert(on_corridor(a, b, horizontal_first, px, py));
        }
        lemma_row_connected(m, a.0, b.0, a.1);
        lemma_column_connected(m, a.1, b.1, b.0);
        lemma_connected_trans(m, a, (b.0, a.1), b);
    } else {
        assert forall|px: int, py: int| on_column_segment(a.1, b.1, a.0, px, py) implies #[trigger] m.floor_at(px, py) by {
            assert(on_corridor(a, b, horizontal_first, px, py));
        }
        assert forall|px: int, py: int| on_row_segment(a.0, b.0, b.1, px, py) implies #[trigger] m.floor_at(px, py) by {
            assert(on_corridor(a, b, horizontal_first, px, py));
        }
        lemma_column_connected(m, a.1, b.1, a.0);
        lemma_row_connected(m, a.0, b.0, b.1);
        lemma_connected_trans(m, a, (a.0, b.1), b);
    }
}

impl GameMap {
    /// The tiles of `self` are those of `old` with `room` carved, and, when `old` already held a
    /// room, the corridor from the center of its last room to the center of `room`.
    pub open spec fn carved_from(self, old: GameMap, room: Room, horizontal_first: bool) -> bool {
        &&& self.width == old.width
        &&& self.height == old.height
        &&& forall|i: int|
            0 <= i < old.size() ==> #[trigger] self.tiles@[i] == if room.contains(old.col(i), old.row(i)) || (
            old.rooms@.len() > 0 && on_corridor(
                old.rooms@.last().center_of(),
                room.center_of(),
                horizontal_first,
                old.col(i),
                old.row(i),
            )) {
                TileType::Floor
            } else {
                old.tiles@[i]
            }
    }

    /// The corridor from the center of room `k - 1` to the center of room `k` is floor, with
    /// one bend or the other.
    pub open spec fn corridor_carved(self, k: int) -> bool {
        let a = self.rooms@[k - 1].center_of();
        let b = self.rooms@[k].center_of();
        ||| forall|px: int, py: int| on_corridor(a, b, true, px, py) ==> #[trigger] self.floor_at(px, py)
        ||| forall|px: int, py: int| on_corridor(a, b, false, px, py) ==> #[trigger] self.floor_at(px, py)
    }

    /// Every room after the first is joined to the previous one by an L-shaped corridor.
    pub open spec fn corridors_carved(self) -> bool {
        forall|k: int| 1 <= k < self.rooms@.len() ==> #[trigger] self.corridor_carved(k)
    }

    /// Whether `(x, y)` lies in a room, or on one of the two L-shaped routes between the
    /// centers of two consecutive rooms.
    pub open spec fn in_layout(self, x: int, y: int) -> bool {
        ||| exists|k: int| 0 <= k < self.rooms@.len() && (#[trigger] self.rooms@[k]).contains(x, y)
        ||| exists|k: int|
            1 <= k < self.rooms@.len() && (on_corridor(
                self.rooms@[k - 1].center_of(),
                (#[trigger] self.rooms@[k]).center_of(),
                true,
                x,
                y,
            ) || on_corridor(self.rooms@[k - 1].center_of(), self.rooms@[k].center_of(), false, x, y))
    }

    /// Every floor tile lies in a room or on a corridor between consecutive rooms.
    pub open spec fn floor_in_layout(self) -> bool {
        forall|i: int|
            0 <= i < self.size() && #[trigger] self.tiles@[i] == TileType::Floor ==> self.in_layout(
                self.col(i),
                self.row(i),
            )
    }

    /// What a generated level guarantees besides the sizes of its arrays.
    pub open spec fn generated(self) -> bool {
        &&& self.border_walled()
        &&& self.rooms_inside()
        &&& self.rooms_disjoint()
        &&& self.rooms_carved()
        &&& self.corridors_carved()
        &&& self.floor_in_layout()
        &&& self.rooms_connected()
    }
}

/// A tile of the layout of `old` stays in the layout once a room is added.
proof fn lemma_layout_grows(old: GameMap, new: GameMap, room: Room, x: int, y: int)
    requires
        new.rooms@ == old.rooms@.push(room),
        old.in_layout(x, y),
    ensures
        new.in_layout(x, y),
{
    if exists|k: int| 0 <= k < old.rooms@.len() && (#[trigger] old.rooms@[k]).contains(x, y) {
        let k = choose|k: int| 0 <= k < old.rooms@.len() && (#[trigger] old.rooms@[k]).contains(x, y);
        assert(new.rooms@[k] == old.rooms@[k]);
    } else {
        let k = choose|k: int|
            1 <= k < old.rooms@.len() && (on_corridor(
                old.rooms@[k - 1].center_of(),
                (#[trigger] old.rooms@[k]).center_of(),
                true,
                x,
                y,
            ) || on_corridor(old.rooms@[k - 1].center_of(), old.rooms@[k].center_of(), false, x, y));
        assert(new.rooms@[k] == old.rooms@[k]);
        assert(new.rooms@[k - 1] == old.rooms@[k - 1]);
    }
}

proof fn lemma_center_inside(r: Room)
    requires
        0 <= r.x0 <= r.x1,
        0 <= r.y0 <= r.y1,
    ensures
        r.contains(r.center_of().0, r.center_of().1),
{
}

/// Placing a room that overlaps no earlier room keeps every guarantee of a generated level.
proof fn lemma_placement_keeps_generated(old: GameMap, new: GameMap, room: Room, horizontal_first: bool)
    requires
        old.wf(),
        new.wf(),
        old.generated(),
        old.room_inside(room),
        forall|k: int| 0 <= k < old.rooms@.len() ==> !room.overlaps(#[trigger] old.rooms@[k]),
        new.rooms@ == old.rooms@.push(room),
        new.carved_from(old, room, horizontal_first),
    ensures
        new.generated(),
        old.floor_grows_to(new),
{
    let w = old.width as int;
    let h = old.height as int;
    let n = old.rooms@.len();
    lemma_center_inside(room);
    let b = room.center_of();
    let a = if n > 0 { old.rooms@.last().center_of() } else { b };
    if n > 0 {
        assert(old.room_inside(old.rooms@[n - 1]));
        lemma_center_inside(old.rooms@[n - 1]);
    }
    // The carved tiles all lie strictly inside the outer ring.
    assert forall|i: int| 0 <= i < old.size() && new.tiles@[i] != old.tiles@[i] implies old.interior(
        old.col(i),
        old.row(i),
    ) by {
        lemma_index_encodes(w, h, i);
    }
    assert forall|x: int, y: int| #[trigger] old.floor_at(x, y) implies new.floor_at(x, y) by {
        lemma_index_decodes(w, h, x, y);
    }
    assert(new.border_walled()) by {
        assert forall|i: int|
            0 <= i < new.size() && new.on_border(new.col(i), new.row(i)) implies #[trigger] new.tiles@[i]
            == TileType::Wall by {
            lemma_index_encodes(w, h, i);
            assert(old.tiles@[i] == TileType::Wall);
        }
    }
    assert(new.rooms_inside());
    assert(new.rooms_disjoint()) by {
        assert forall|i: int, j: int| 0 <= i < j < new.rooms@.len() implies !(#[trigger] new.rooms@[i]).overlaps(
            #[trigger] new.rooms@[j],
        ) by {
            if j == n {
                assert(!room.overlaps(old.rooms@[i]));
            } else {
                assert(old.rooms@[i] == new.rooms@[i] && old.rooms@[j] == new.rooms@[j]);
            }
        }
    }
    assert forall|x: int, y: int| room.contains(x, y) implies #[trigger] new.floor_at(x, y) by {
        lemma_index_decodes(w, h, x, y);
    }
    assert(new.rooms_carved()) by {
        assert forall|k: int, x: int, y: int|
            0 <= k < new.rooms@.len() && (#[trigger] new.rooms@[k]).contains(x, y) implies #[trigger] new.floor_at(
            x,
            y,
        ) by {
            if k < n {
                assert(old.rooms@[k] == new.rooms@[k]);
                assert(old.floor_at(x, y));
            }
        }
    }
    assert forall|px: int, py: int| n > 0 && on_corridor(a, b, horizontal_first, px, py) implies #[trigger] new.floor_at(
        px,
        py,
    ) by {
        lemma_index_decodes(w, h, px, py);
    }
    assert(new.corridors_carved()) by {
        assert forall|k: int| 1 <= k < new.rooms@.len() implies #[trigger] new.corridor_carved(k) by {
            if k < n {
                assert(old.rooms@[k] == new.rooms@[k] && old.rooms@[k - 1] == new.rooms@[k - 1]);
                assert(old.corridor_carved(k));
                let ka = old.rooms@[k - 1].center_of();
                let kb = old.rooms@[k].center_of();
                if forall|px: int, py: int| on_corridor(ka, kb, true, px, py) ==> #[trigger] old.floor_at(px, py) {
                    assert forall|px: int, py: int| on_corridor(ka, kb, true, px, py) implies #[trigger] new.floor_at(
                        px,
                        py,
                    ) by {
                        assert(old.floor_at(px, py));
                    }
                } else {
                    assert forall|px: int, py: int| on_corridor(ka, kb, false, px, py) implies #[trigger] new.floor_at(
                        px,
                        py,
                    ) by {
                        assert(old.floor_at(px, py));
                    }
                }
            } else {
                assert(new.rooms@[k - 1] == old.rooms@.last());
                assert(new.rooms@[k] == room);
                if horizontal_first {
                    assert forall|px: int, py: int| on_corridor(a, b, true, px, py) implies #[trigger] new.floor_at(
                        px,
                        py,
                    ) by {}
                } else {
                    assert forall|px: int, py: int| on_corridor(a, b, false, px, py) implies #[trigger] new.floor_at(
                        px,
                        py,
                    ) by {}
                }
            }
        }
    }
    assert(new.floor_in_layout()) by {
        assert forall|i: int|
            0 <= i < new.size() && #[trigger] new.tiles@[i] == TileType::Floor implies new.in_layout(
            new.col(i),
            new.row(i),
        ) by {
            if old.tiles@[i] == TileType::Floor {
                assert(old.in_layout(old.col(i), old.row(i)));
                lemma_layout_grows(old, new, room, old.col(i), old.row(i));
            } else if room.contains(old.col(i), old.row(i)) {
                assert(new.rooms@[n as int] == room);
            } else {
                assert(n > 0);
                assert(new.rooms@[n as int] == room);
                assert(new.rooms@[n - 1] == old.rooms@.last());
                assert(on_corridor(a, b, horizontal_first, old.col(i), old.row(i)));
            }
        }
    }
    // The new center is reached from the center of the last earlier room.
    assert(new.floor_connected(a, b)) by {
        if n > 0 {
            lemma_corridor_connected(new, a, b, horizontal_first);
        } else {
            lemma_connected_refl(new, b);
        }
    }
    assert(new.rooms_connected()) by {
        assert forall|i: int, j: int|
            0 <= i < new.rooms@.len() && 0 <= j < new.rooms@.len() implies new.floor_connected(
            #[trigger] new.rooms@[i].center_of(),
            #[trigger] new.rooms@[j].center_of(),
        ) by {
            if i < n && j < n {
                assert(old.rooms@[i] == new.rooms@[i] && old.rooms@[j] == new.rooms@[j]);
                lemma_connected_grows(old, new, old.rooms@[i].center_of(), old.rooms@[j].center_of());
            } else if i < n {
                assert(old.rooms@[i] == new.rooms@[i]);
                assert(old.floor_connected(old.rooms@[i].center_of(), a));
                lemma_connected_grows(old, new, old.rooms@[i].center_of(), a);
                lemma_connected_trans(new, old.rooms@[i].center_of(), a, b);
            } else if j < n {
                assert(old.rooms@[j] == new.rooms@[j]);
                assert(old.floor_connected(old.rooms@[j].center_of(), a));
                lemma_connected_grows(old, new, old.rooms@[j].center_of(), a);
                lemma_connected_trans(new, old.rooms@[j].center_of(), a, b);
                lemma_connected_symm(new, old.rooms@[j].center_of(), b);
            } else {
                lemma_connected_refl(new, b);
            }
        }
    }
}

impl GameMap {
    /// Tries to add `room` to the level. The room is rejected when it overlaps (edges
    /// included) a room already placed; otherwise its whole rectangle becomes floor and, when
    /// it is not the first room, an L-shaped corridor joins the center of the previous room to
    /// its center, bending as `horizontal_first` says. Returns whether the room was placed.
    pub fn place_room(&mut self, room: Room, horizontal_first: bool) -> (placed: bool)
        requires
            old(self).wf(),
            old(self).room_inside(room),
            old(self).rooms_inside(),
        ensures
            final(self).wf(),
            placed == forall|k: int| 0 <= k < old(self).rooms@.len() ==> !room.overlaps(#[trigger] old(self).rooms@[k]),
            !placed ==> *final(self) == *old(self),
            placed ==> final(self).rooms@ == old(self).rooms@.push(room),
            placed ==> final(self).carved_from(*old(self), room, horizontal_first),
            final(self).width == old(self).width,
            final(self).height == old(self).height,
            final(self).explored@ == old(self).explored@,
            final(self).visible@ == old(self).visible@,
            final(self).blocked@ == old(self).blocked@,
            final(self).tile_entities@ == old(self).tile_entities@,
    {
        let mut valid = true;
        let mut k: usize = 0;
        while k < self.rooms.len()
            invariant
                k <= self.rooms@.len(),
                valid == forall|j: int| 0 <= j < k ==> !room.overlaps(#[trigger] self.rooms@[j]),
            decreases self.rooms@.len() - k,
        {
            if room.intersects(&self.rooms[k]) {
                valid = false;
            }
            k = k + 1;
        }
        if !valid {
            return false;
        }
        let ghost before = *self;
        let ghost w = self.width as int;
        let ghost h = self.height as int;
        proof {
            lemma_center_inside(room);
        }
        self.carve_room(&room);
        let ghost after_room = *self;
        let n = self.rooms.len();
        if n > 0 {
            let (new_x, new_y) = room.center();
            let (prev_x, prev_y) = self.rooms[n - 1].center();
            proof {
                assert(before.room_inside(before.rooms@[n - 1]));
                lemma_center_inside(before.rooms@[n - 1]);
            }
            if horizontal_first {
                self.carve_corridor_horizontal(prev_x, new_x, prev_y);
                let ghost mid = *self;
                self.carve_corridor_vertical(prev_y, new_y, new_x);
                proof {
                    assert forall|i: int| 0 <= i < w * h implies #[trigger] self.tiles@[i] == if room.contains(
                        before.col(i),
                        before.row(i),
                    ) || on_corridor(
                        before.rooms@.last().center_of(),
                        room.center_of(),
                        horizontal_first,
                        before.col(i),
                        before.row(i),
                    ) {
                        TileType::Floor
                    } else {
                        before.tiles@[i]
                    } by {
                        assert(mid.tiles@[i] == if on_row_segment(prev_x as int, new_x as int, prev_y as int, before.col(i), before.row(i)) {
                            TileType::Floor
                        } else {
                            after_room.tiles@[i]
                        });
                    }
                }
            } else {
                self.carve_corridor_vertical(prev_y, new_y, prev_x);
                let ghost mid = *self;
                self.carve_corridor_horizontal(prev_x, new_x, new_y);
                proof {
                    assert forall|i: int| 0 <= i < w * h implies #[trigger] self.tiles@[i] == if room.contains(
                        before.col(i),
                        before.row(i),
                    ) || on_corridor(
                        before.rooms@.last().center_of(),
                        room.center_of(),
                        horizontal_first,
                        before.col(i),
                        before.row(i),
                    ) {
                        TileType::Floor
                    } else {
                        before.tiles@[i]
                    } by {
                        assert(mid.tiles@[i] == if on_column_segment(prev_y as int, new_y as int, prev_x as int, before.col(i), before.row(i)) {
                            TileType::Floor
                        } else {
                            after_room.tiles@[i]
                        });
                    }
                }
            }
        }
        self.rooms.push(room);
        true
    }
}

impl GameMap {
    /// A level of `width` by `height` tiles, all walls, with no rooms, nothing explored or
    /// visible, nothing blocked and no occupants.
    pub fn empty(width: i32, height: i32) -> (map: GameMap)
        requires
            0 < width,
            0 < height,
            width * height <= i32::MAX,
        ensures
            map.wf(),
            map.width == width,
            map.height == height,
            map.rooms@.len() == 0,
            forall|i: int| 0 <= i < map.size() ==> #[trigger] map.tiles@[i] == TileType::Wall,
            forall|i: int| 0 <= i < map.size() ==> !#[trigger] map.explored@[i],
            forall|i: int| 0 <= i < map.size() ==> !#[trigger] map.visible@[i],
            forall|i: int| 0 <= i < map.size() ==> !#[trigger] map.blocked@[i],
            forall|i: int| 0 <= i < map.size() ==> (#[trigger] map.tile_entities@[i])@.len() == 0,
    {
        let total_size = (width * height) as usize;
        let mut tiles: Vec<TileType> = Vec::new();
        let mut explored: Vec<bool> = Vec::new();
        let mut visible: Vec<bool> = Vec::new();
        let mut blocked: Vec<bool> = Vec::new();
        let mut tile_entities: Vec<Vec<usize>> = Vec::new();
        let mut k: usize = 0;
        while k < total_size
            invariant
                k <= total_size,
                tiles@.len() == k,
                explored@.len() == k,
                visible@.len() == k,
                blocked@.len() == k,
                tile_entities@.len() == k,
                forall|i: int| 0 <= i < k ==> #[trigger] tiles@[i] == TileType::Wall,
                forall|i: int| 0 <= i < k ==> !#[trigger] explored@[i],
                forall|i: int| 0 <= i < k ==> !#[trigger] visible@[i],
                forall|i: int| 0 <= i < k ==> !#[trigger] blocked@[i],
                forall|i: int| 0 <= i < k ==> (#[trigger] tile_entities@[i])@.len() == 0,
            decreases total_size - k,
        {
            tiles.push(TileType::Wall);
            explored.push(false);
            visible.push(false);
            blocked.push(false);
            tile_entities.push(Vec::new());
            k = k + 1;
        }
        GameMap { tiles, rooms: Vec::new(), width, height, explored, visible, blocked, tile_entities }
    }

    /// Generates a level: `MAX_ROOMS` rooms are drawn at random and each is kept when it
    /// overlaps no room kept before, joined by an L-shaped corridor to the previous kept room.
    /// Every outcome of the generator gives a level with at least one room, whose outer ring is
    /// wall, whose rooms lie inside it without overlapping and are floor, where each room after
    /// the first is joined to the previous one by a floor corridor, where every floor tile lies
    /// in a room or on such a corridor, and whose room centers are all joined by floor.
    pub fn generate(width: i32, height: i32, rng: &mut RandomNumberGenerator) -> (map: GameMap)
        requires
            MIN_DIMENSION <= width,
            MIN_DIMENSION <= height,
            width * height <= i32::MAX,
        ensures
            map.wf(),
            map.width == width,
            map.height == height,
            map.generated(),
            1 <= map.rooms@.len() <= MAX_ROOMS,
            forall|k: int|
                0 <= k < map.rooms@.len() ==> MIN_SIZE <= (#[trigger] map.rooms@[k]).x1 - map.rooms@[k].x0
                    < MAX_SIZE && MIN_SIZE <= map.rooms@[k].y1 - map.rooms@[k].y0 < MAX_SIZE,
            forall|i: int| 0 <= i < map.size() ==> !#[trigger] map.explored@[i],
            forall|i: int| 0 <= i < map.size() ==> !#[trigger] map.visible@[i],
            forall|i: int| 0 <= i < map.size() ==> !#[trigger] map.blocked@[i],
            forall|i: int| 0 <= i < map.size() ==> (#[trigger] map.tile_entities@[i])@.len() == 0,
    {
        let mut map = GameMap::empty(width, height);
        proof {
            assert forall|i: int|
                0 <= i < map.size() && map.on_border(map.col(i), map.row(i)) implies #[trigger] map.tiles@[i]
                == TileType::Wall by {}
        }
        let mut attempt: i32 = 0;
        while attempt < MAX_ROOMS
            invariant
                map.wf(),
                map.width == width,
                map.height == height,
                MIN_DIMENSION <= width,
                MIN_DIMENSION <= height,
                map.generated(),
                0 <= attempt <= MAX_ROOMS,
                map.rooms@.len() <= attempt,
                attempt > 0 ==> map.rooms@.len() >= 1,
                forall|k: int|
                    0 <= k < map.rooms@.len() ==> MIN_SIZE <= (#[trigger] map.rooms@[k]).x1 - map.rooms@[k].x0
                        < MAX_SIZE && MIN_SIZE <= map.rooms@[k].y1 - map.rooms@[k].y0 < MAX_SIZE,
                forall|i: int| 0 <= i < map.size() ==> !#[trigger] map.explored@[i],
                forall|i: int| 0 <= i < map.size() ==> !#[trigger] map.visible@[i],
                forall|i: int| 0 <= i < map.size() ==> !#[trigger] map.blocked@[i],
                forall|i: int| 0 <= i < map.size() ==> (#[trigger] map.tile_entities@[i])@.len() == 0,
            decreases MAX_ROOMS - attempt,
        {
            let room_width = random_in_range(rng, MIN_SIZE, MAX_SIZE);
            let room_height = random_in_range(rng, MIN_SIZE, MAX_SIZE);
            let x = random_in_range(rng, 1, width - room_width - 2);
            let y = random_in_range(rng, 1, height - room_height - 2);
            let room = Room::new(x, y, room_width, room_height);
            let horizontal_first = random_in_range(rng, 0, 2) == 1;
            let ghost before = map;
            let placed = map.place_room(room, horizontal_first);
            proof {
                if placed {
                    lemma_placement_keeps_generated(before, map, room, horizontal_first);
                }
            }
            attempt = attempt + 1;
        }
        map
    }

    /// Generates a level with a freshly seeded random number generator.
    pub fn new(width: i32, height: i32) -> (map: GameMap)
        requires
            MIN_DIMENSION <= width,
            MIN_DIMENSION <= height,
            width * height <= i32::MAX,
        ensures
            map.wf(),
            map.width == width,
            map.height == height,
            map.generated(),
            1 <= map.rooms@.len() <= MAX_ROOMS,
            forall|k: int|
                0 <= k < map.rooms@.len() ==> MIN_SIZE <= (#[trigger] map.rooms@[k]).x1 - map.rooms@[k].x0
                    < MAX_SIZE && MIN_SIZE <= map.rooms@[k].y1 - map.rooms@[k].y0 < MAX_SIZE,
            forall|i: int| 0 <= i < map.size() ==> !#[trigger] map.explored@[i],
            forall|i: int| 0 <= i < map.size() ==> !#[trigger] map.visible@[i],
            forall|i: int| 0 <= i < map.size() ==> !#[trigger] map.blocked@[i],
            forall|i: int| 0 <= i < map.size() ==> (#[trigger] map.tile_entities@[i])@.len() == 0,
    {
        let mut rng = fresh_rng();
        GameMap::generate(width, height, &mut rng)
    }
}

} // verus!
