use vstd::prelude::*;
use crate::components::{Position, Vision};
use crate::map::GameMap;
use crate::world::World;

verus! {

/// The points among the first `n` of `pts` that lie strictly inside the outer ring, in order.
pub open spec fn inside_points(m: GameMap, pts: Seq<Position>, n: int) -> Seq<Position>
    decreases n,
{
    if n <= 0 {
        Seq::empty()
    } else {
        let rest = inside_points(m, pts, n - 1);
        if m.interior(pts[n - 1].x as int, pts[n - 1].y as int) {
            rest.push(pts[n - 1])
        } else {
            rest
        }
    }
}

/// What the field of view `pts` leaves once the points on or beyond the outer ring are dropped.
pub open spec fn in_view(m: GameMap, pts: Seq<Position>) -> Seq<Position> {
    inside_points(m, pts, pts.len() as int)
}

/// Whether one of the first `n` points of `vis` is tile `t`.
pub open spec fn shows_upto(m: GameMap, vis: Seq<Position>, n: int, t: int) -> bool {
    exists|k: int| 0 <= k < n && m.index_of((#[trigger] vis[k]).x as int, vis[k].y as int) == t
}

/// Whether one of the points of `vis` is tile `t`.
pub open spec fn shows(m: GameMap, vis: Seq<Position>, t: int) -> bool {
    shows_upto(m, vis, vis.len() as int, t)
}

proof fn lemma_inside_points_inside(m: GameMap, pts: Seq<Position>, n: int)
    requires
        0 <= n <= pts.len(),
    ensures
        forall|k: int|
            0 <= k < inside_points(m, pts, n).len() ==> m.interior(
                (#[trigger] inside_points(m, pts, n)[k]).x as int,
                inside_points(m, pts, n)[k].y as int,
            ),
    decreases n,
{
    if n > 0 {
        lemma_inside_points_inside(m, pts, n - 1);
        let rest = inside_points(m, pts, n - 1);
        assert forall|k: int| 0 <= k < inside_points(m, pts, n).len() implies m.interior(
            (#[trigger] inside_points(m, pts, n)[k]).x as int,
            inside_points(m, pts, n)[k].y as int,
        ) by {
            if k < rest.len() {
                assert(inside_points(m, pts, n)[k] == rest[k]);
            }
        }
    }
}

proof fn lemma_inside_points_same(m1: GameMap, m2: GameMap, pts: Seq<Position>, n: int)
    requires
        m1.width == m2.width,
        m1.height == m2.height,
    ensures
        inside_points(m1, pts, n) == inside_points(m2, pts, n),
    decreases n,
{
    if n > 0 {
        lemma_inside_points_same(m1, m2, pts, n - 1);
    }
}

impl GameMap {
    /// Marks what the player sees now: a tile is visible exactly when it is one of `vis`,
    /// and every tile of `vis` becomes explored. Explored tiles stay explored.
    pub fn mark_seen(&mut self, vis: &Vec<Position>)
        requires
            old(self).wf(),
            forall|k: int| 0 <= k < vis@.len() ==> old(self).interior((#[trigger] vis@[k]).x as int, vis@[k].y as int),
        ensures
            final(self).wf(),
            final(self).tiles@ == old(self).tiles@,
            final(self).rooms@ == old(self).rooms@,
            final(self).width == old(self).width,
            final(self).height == old(self).height,
            final(self).blocked@ == old(self).blocked@,
            final(self).tile_entities@ == old(self).tile_entities@,
            forall|t: int| 0 <= t < old(self).size() ==> #[trigger] final(self).visible@[t] == shows(*old(self), vis@, t),
            forall|t: int|
                0 <= t < old(self).size() ==> #[trigger] final(self).explored@[t] == (old(self).explored@[t] || shows(
                    *old(self),
                    vis@,
                    t,
                )),
    {
        let ghost w = self.width as int;
        let ghost h = self.height as int;
        let n = self.visible.len();
        let mut i: usize = 0;
        while i < n
            invariant
                self.wf(),
                n == self.size(),
                i <= n,
                self.tiles@ == old(self).tiles@,
                self.rooms@ == old(self).rooms@,
                self.width == old(self).width,
                self.height == old(self).height,
                self.blocked@ == old(self).blocked@,
                self.tile_entities@ == old(self).tile_entities@,
                self.explored@ == old(self).explored@,
                forall|t: int| 0 <= t < i ==> !#[trigger] self.visible@[t],
            decreases n - i,
        {
            self.visible.set(i, false);
            i = i + 1;
        }
        let mut k: usize = 0;
        while k < vis.len()
            invariant
                self.wf(),
                w == self.width,
                h == self.height,
                k <= vis@.len(),
                forall|j: int| 0 <= j < vis@.len() ==> self.interior((#[trigger] vis@[j]).x as int, vis@[j].y as int),
                self.tiles@ == old(self).tiles@,
                self.rooms@ == old(self).rooms@,
                self.width == old(self).width,
                self.height == old(self).height,
                self.blocked@ == old(self).blocked@,
                self.tile_entities@ == old(self).tile_entities@,
                forall|t: int| 0 <= t < self.size() ==> #[trigger] self.visible@[t] == shows_upto(*old(self), vis@, k as int, t),
                forall|t: int|
                    0 <= t < self.size() ==> #[trigger] self.explored@[t] == (old(self).explored@[t] || shows_upto(
                        *old(self),
                        vis@,
                        k as int,
                        t,
                    )),
            decreases vis@.len() - k,
        {
            let p = vis[k];
            let idx = self.xy_idx(p.x, p.y);
            self.explored.set(idx, true);
            self.visible.set(idx, true);
            proof {
                assert forall|t: int| 0 <= t < self.size() implies #[trigger] self.visible@[t] == shows_upto(*old(self), vis@, k + 1, t) by {
                    if t == idx {
                        assert(old(self).index_of(vis@[k as int].x as int, vis@[k as int].y as int) == t);
                    }
                    if shows_upto(*old(self), vis@, k + 1, t) && t != idx {
                        let j = choose|j: int| 0 <= j < k + 1 && old(self).index_of((#[trigger] vis@[j]).x as int, vis@[j].y as int) == t;
                        assert(j != k);
                    }
                }
                assert forall|t: int| 0 <= t < self.size() implies #[trigger] self.explored@[t] == (old(self).explored@[t] || shows_upto(*old(self), vis@, k + 1, t)) by {
                    if t == idx {
                        assert(old(self).index_of(vis@[k as int].x as int, vis@[k as int].y as int) == t);
                    }
                    if shows_upto(*old(self), vis@, k + 1, t) && t != idx {
                        let j = choose|j: int| 0 <= j < k + 1 && old(self).index_of((#[trigger] vis@[j]).x as int, vis@[j].y as int) == t;
                        assert(j != k);
                    }
                }
            }
            k = k + 1;
        }
    }
}

/// Keeps the points of `pts` that lie strictly inside the outer ring, in order.
fn points_in_view(m: &GameMap, pts: &Vec<Position>) -> (r: Vec<Position>)
    ensures
        r@ == in_view(*m, pts@),
{
    let mut r: Vec<Position> = Vec::new();
    let mut k: usize = 0;
    while k < pts.len()
        invariant
            k <= pts@.len(),
            r@ == inside_points(*m, pts@, k as int),
        decreases pts@.len() - k,
    {
        let p = pts[k];
        if m.in_bounds(p.x, p.y) {
            r.push(p);
        }
        k = k + 1;
    }
    r
}

/// `new` is `old` after the player saw `vis`: visible exactly on `vis`, explored on what was
/// explored before and on `vis`, nothing else changed.
pub open spec fn seen_by_player(old: GameMap, new: GameMap, vis: Seq<Position>) -> bool {
    &&& new.tiles@ == old.tiles@
    &&& new.rooms@ == old.rooms@
    &&& new.width == old.width
    &&& new.height == old.height
    &&& new.blocked@ == old.blocked@
    &&& new.tile_entities@ == old.tile_entities@
    &&& new.visible@.len() == old.visible@.len()
    &&& new.explored@.len() == old.explored@.len()
    &&& forall|t: int| 0 <= t < old.size() ==> #[trigger] new.visible@[t] == shows(old, vis, t)
    &&& forall|t: int|
        0 <= t < old.size() ==> #[trigger] new.explored@[t] == (old.explored@[t] || shows(old, vis, t))
}

impl World {
    /// Whether `actor` has a field of view that is marked for recomputation.
    pub open spec fn needs_view(self, actor: int) -> bool {
        self.visions@[actor].is_some() && self.visions@[actor].unwrap().recompute
    }

    /// Everything but the fields of view and the map is the same in `self` and `other`.
    pub open spec fn same_actors_but_vision(self, other: World) -> bool {
        &&& self.positions@ == other.positions@
        &&& self.names@ == other.names@
        &&& self.renderables@ == other.renderables@
        &&& self.players@ == other.players@
        &&& self.monsters@ == other.monsters@
        &&& self.blockers@ == other.blockers@
        &&& self.fighters@ == other.fighters@
        &&& self.player_pos == other.player_pos
        &&& self.visions@.len() == other.visions@.len()
    }

    /// `new.visions[actor]` is the field of view of `actor` in `self` with `pts` as what it
    /// sees (once the points outside the boundary are dropped) and no longer marked stale.
    pub open spec fn view_updated(self, new: World, actor: int, pts: Seq<Position>) -> bool {
        &&& new.visions@[actor].is_some()
        &&& new.visions@[actor].unwrap().visible@ == in_view(self.map, pts)
        &&& new.visions@[actor].unwrap().range == self.visions@[actor].unwrap().range
        &&& !new.visions@[actor].unwrap().recompute
    }

    /// Stores the field of view `pts` computed for `actor`: the points on or beyond the outer
    /// ring are dropped, the rest become what the actor sees, and the field of view is no
    /// longer stale. When the actor is the player, the map's visible tiles become exactly
    /// those, and they are all marked explored.
    pub fn update_vision(&mut self, actor: usize, pts: &Vec<Position>)
        requires
            old(self).wf(),
            actor < old(self).count(),
            old(self).visions@[actor as int].is_some(),
        ensures
            final(self).wf(),
            final(self).same_actors_but_vision(*old(self)),
            old(self).view_updated(*final(self), actor as int, pts@),
            forall|b: int|
                0 <= b < old(self).count() && b != actor ==> #[trigger] final(self).visions@[b] == old(self).visions@[b],
            old(self).players@[actor as int].is_some() ==> seen_by_player(
                old(self).map,
                final(self).map,
                in_view(old(self).map, pts@),
            ),
            old(self).players@[actor as int].is_none() ==> final(self).map == old(self).map,
    {
        let visible = points_in_view(&self.map, pts);
        proof {
            lemma_inside_points_inside(self.map, pts@, pts@.len() as int);
        }
        if self.players[actor].is_some() {
            self.map.mark_seen(&visible);
        }
        let range = match &self.visions[actor] {
            Some(v) => v.range,
            None => 0,
        };
        self.visions.set(actor, Some(Vision { visible, range, recompute: false }));
    }
}

/// The visibility engine: recomputes, for every actor whose field of view is stale, what it
/// sees, and keeps the player's explored and visible tiles.
pub struct VisibilitySystem {}

impl VisibilitySystem {
    /// For every actor whose field of view is marked for recomputation, stores what
    /// `fields_of_view` holds for it (the field of view computed from its position and range),
    /// minus the points on or beyond the outer ring, and clears the mark. The other actors are
    /// left as they are. When the player is among the recomputed actors, the map's visible
    /// tiles become exactly what the player sees and those tiles become explored; no explored
    /// tile ever stops being explored.
    pub fn run(&mut self, world: &mut World, fields_of_view: &Vec<Vec<Position>>)
        requires
            old(world).wf(),
            fields_of_view@.len() == old(world).count(),
        ensures
            final(world).wf(),
            final(world).same_actors_but_vision(*old(world)),
            forall|a: int|
                0 <= a < old(world).count() && old(world).needs_view(a) ==> old(world).view_updated(
                    *final(world),
                    a,
                    #[trigger] fields_of_view@[a]@,
                ),
            forall|a: int|
                0 <= a < old(world).count() && !old(world).needs_view(a) ==> #[trigger] final(world).visions@[a]
                    == old(world).visions@[a],
            old(world).has_player() && old(world).needs_view(old(world).player()) ==> seen_by_player(
                old(world).map,
                final(world).map,
                in_view(old(world).map, fields_of_view@[old(world).player()]@),
            ),
            !(old(world).has_player() && old(world).needs_view(old(world).player())) ==> final(world).map
                == old(world).map,
            forall|t: int|
                0 <= t < old(world).map.size() && old(world).map.explored@[t] ==> #[trigger] final(world).map.explored@[t],
    {
        let n = world.positions.len();
        let mut a: usize = 0;
        while a < n
            invariant
                world.wf(),
                n == world.count(),
                n == old(world).count(),
                a <= n,
                fields_of_view@.len() == n,
                world.same_actors_but_vision(*old(world)),
                forall|b: int|
                    0 <= b < a && old(world).needs_view(b) ==> old(world).view_updated(
                        *world,
                        b,
                        #[trigger] fields_of_view@[b]@,
                    ),
                forall|b: int|
                    0 <= b < n && !(b < a && old(world).needs_view(b)) ==> #[trigger] world.visions@[b]
                        == old(world).visions@[b],
                old(world).has_player() && old(world).player() < a && old(world).needs_view(old(world).player())
                    ==> seen_by_player(
                    old(world).map,
                    world.map,
                    in_view(old(world).map, fields_of_view@[old(world).player()]@),
                ),
                !(old(world).has_player() && old(world).player() < a && old(world).needs_view(old(world).player()))
                    ==> world.map == old(world).map,
            decreases n - a,
        {
            let refresh = match &world.visions[a] {
                Some(v) => v.recompute,
                None => false,
            };
            if refresh {
                let ghost before = *world;
                proof {
                    assert(before.visions@[a as int] == old(world).visions@[a as int]);
                    if before.players@[a as int].is_some() {
                        assert(old(world).players@[a as int].is_some());
                        assert(old(world).has_player());
                        assert(old(world).player() == a);
                    } else if old(world).has_player() {
                        assert(old(world).player() != a);
                    }
                }
                world.update_vision(a, &fields_of_view[a]);
                proof {
                    lemma_inside_points_same(
                        before.map,
                        old(world).map,
                        fields_of_view@[a as int]@,
                        fields_of_view@[a as int]@.len() as int,
                    );
                }
            }
            a = a + 1;
        }
    }
}

} // verus!
