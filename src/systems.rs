use vstd::prelude::*;
use crate::map::lemma_index_decodes;
use crate::world::World;

verus! {

impl World {
    /// Index of the tile on which `actor` stands.
    pub open spec fn tile_of(self, actor: int) -> int {
        self.map.index_of(self.positions@[actor].x as int, self.positions@[actor].y as int)
    }

    /// The actors among the first `n` that stand on tile `t`, by increasing identifier.
    pub open spec fn occupants_upto(self, t: int, n: int) -> Seq<usize>
        decreases n,
    {
        if n <= 0 {
            Seq::empty()
        } else {
            let rest = self.occupants_upto(t, n - 1);
            if self.tile_of(n - 1) == t {
                rest.push((n - 1) as usize)
            } else {
                rest
            }
        }
    }

    /// Whether a blocking actor among the first `n` stands on tile `t`.
    pub open spec fn blocker_upto(self, t: int, n: int) -> bool {
        exists|a: int| 0 <= a < n && (#[trigger] self.blockers@[a]).is_some() && self.tile_of(a) == t
    }

    /// Whether tile `t` is blocked by its terrain or by a blocking actor.
    pub open spec fn occupancy_blocked(self, t: int) -> bool {
        !self.map.tiles@[t].walkable() || self.blocker_upto(t, self.count())
    }

    /// The map's occupancy is what a rebuild computes from the current actors.
    pub open spec fn occupancy_current(self) -> bool {
        &&& forall|t: int|
            0 <= t < self.map.size() ==> #[trigger] self.map.blocked@[t] == self.occupancy_blocked(t)
        &&& forall|t: int|
            0 <= t < self.map.size() ==> (#[trigger] self.map.tile_entities@[t])@ == self.occupants_upto(
                t,
                self.count(),
            )
    }

    /// Everything but the occupancy arrays of the map is the same in `self` and `other`.
    pub open spec fn same_but_occupancy(self, other: World) -> bool {
        &&& self.map.tiles@ == other.map.tiles@
        &&& self.map.rooms@ == other.map.rooms@
        &&& self.map.width == other.map.width
        &&& self.map.height == other.map.height
        &&& self.map.explored@ == other.map.explored@
        &&& self.map.visible@ == other.map.visible@
        &&& self.positions@ == other.positions@
        &&& self.names@ == other.names@
        &&& self.renderables@ == other.renderables@
        &&& self.players@ == other.players@
        &&& self.monsters@ == other.monsters@
        &&& self.visions@ == other.visions@
        &&& self.blockers@ == other.blockers@
        &&& self.fighters@ == other.fighters@
        &&& self.player_pos == other.player_pos
    }
}

proof fn lemma_occupants_are_actors(w: World, t: int, n: int)
    requires
        0 <= n,
    ensures
        forall|k: int|
            0 <= k < w.occupants_upto(t, n).len() ==> (#[trigger] w.occupants_upto(t, n)[k]) < n,
    decreases n,
{
    if n > 0 {
        lemma_occupants_are_actors(w, t, n - 1);
        let rest = w.occupants_upto(t, n - 1);
        assert forall|k: int|
            0 <= k < w.occupants_upto(t, n).len() implies (#[trigger] w.occupants_upto(t, n)[k]) < n by {
            if k < rest.len() {
                assert(w.occupants_upto(t, n)[k] == rest[k]);
            }
        }
    }
}

/// The spatial index: rebuilds, once per turn, which tiles are blocked and which actors stand
/// on each tile.
pub struct MapManagementSystem {}

impl MapManagementSystem {
    /// Resets every tile's blocked flag to its terrain's non-walkability, then records each
    /// actor, in order of identifier, in the occupant list of its tile and marks that tile
    /// blocked when the actor is blocking.
    pub fn run(&mut self, world: &mut World)
        requires
            old(world).wf(),
        ensures
            final(world).wf(),
            final(world).same_but_occupancy(*old(world)),
            final(world).occupancy_current(),
            forall|a: int|
                0 <= a < final(world).count() && (#[trigger] final(world).blockers@[a]).is_some()
                    ==> final(world).map.blocked@[final(world).tile_of(a)],
            forall|a: int|
                0 <= a < final(world).count() && (#[trigger] final(world).blockers@[a]).is_none()
                    ==> final(world).map.blocked@[final(world).tile_of(a)] == (
                !final(world).map.tiles@[final(world).tile_of(a)].walkable() || exists|b: int|
                    0 <= b < final(world).count() && b != a && (#[trigger] final(world).blockers@[b]).is_some()
                        && final(world).tile_of(b) == final(world).tile_of(a)),
    {
        world.map.compute_blocked();
        world.map.clear_entities();
        let ghost start = *world;
        let ghost w = world.map.width as int;
        let ghost h = world.map.height as int;
        proof {
            assert forall|t: int|
                0 <= t < world.map.size() implies (#[trigger] world.map.tile_entities@[t])@ == world.occupants_upto(t, 0) by {
                assert(world.map.tile_entities@[t]@ =~= Seq::<usize>::empty());
            }
        }
        let n = world.positions.len();
        let mut a: usize = 0;
        while a < n
            invariant
                world.map.wf(),
                n == world.count(),
                a <= n,
                w == world.map.width,
                h == world.map.height,
                world.same_but_occupancy(*old(world)),
                start.same_but_occupancy(*old(world)),
                world.names@.len() == n,
                world.renderables@.len() == n,
                world.players@.len() == n,
                world.monsters@.len() == n,
                world.visions@.len() == n,
                world.blockers@.len() == n,
                world.fighters@.len() == n,
                forall|b: int|
                    0 <= b < n ==> world.map.interior(
                        (#[trigger] world.positions@[b]).x as int,
                        world.positions@[b].y as int,
                    ),
                forall|t: int|
                    0 <= t < world.map.size() ==> #[trigger] world.map.blocked@[t] == (
                    !world.map.tiles@[t].walkable() || world.blocker_upto(t, a as int)),
                forall|t: int|
                    0 <= t < world.map.size() ==> (#[trigger] world.map.tile_entities@[t])@ == world.occupants_upto(
                        t,
                        a as int,
                    ),
            decreases n - a,
        {
            let pos = world.positions[a];
            let idx = world.map.xy_idx(pos.x, pos.y);
            let ghost before = *world;
            if world.blockers[a].is_some() {
                world.map.blocked.set(idx, true);
            }
            world.map.tile_entities[idx].push(a);
            proof {
                assert forall|t: int| 0 <= t < world.map.size() implies #[trigger] world.map.blocked@[t] == (
                !world.map.tiles@[t].walkable() || world.blocker_upto(t, a + 1)) by {
                    if world.blockers@[a as int].is_some() && t == idx {
                        assert(world.blockers@[a as int].is_some() && world.tile_of(a as int) == t);
                    }
                    if world.blocker_upto(t, a + 1) && !world.blocker_upto(t, a as int) {
                        let b = choose|b: int| 0 <= b < a + 1 && (#[trigger] world.blockers@[b]).is_some() && world.tile_of(b) == t;
                        assert(b == a);
                    }
                }
                assert forall|t: int| 0 <= t < world.map.size() implies (#[trigger] world.map.tile_entities@[t])@
                    == world.occupants_upto(t, a + 1) by {
                    assert(before.occupants_upto(t, a as int) == world.occupants_upto(t, a as int)) by {
                        lemma_occupants_same(before, *world, t, a as int);
                    }
                }
            }
            a = a + 1;
        }
        proof {
            assert forall|t: int, k: int|
                0 <= t < world.map.size() && 0 <= k < (#[trigger] world.map.tile_entities@[t])@.len() implies (
                #[trigger] world.map.tile_entities@[t]@[k]) < world.count() by {
                lemma_occupants_are_actors(*world, t, n as int);
            }
            assert forall|a: int|
                0 <= a < world.count() && (#[trigger] world.blockers@[a]).is_some() implies world.map.blocked@[world.tile_of(a)] by {
                lemma_index_decodes(w, h, world.positions@[a].x as int, world.positions@[a].y as int);
            }
            assert forall|a: int|
                0 <= a < world.count() && (#[trigger] world.blockers@[a]).is_none() implies world.map.blocked@[world.tile_of(a)] == (!world.map.tiles@[world.tile_of(a)].walkable() || exists|b: int|
                    0 <= b < world.count() && b != a && (#[trigger] world.blockers@[b]).is_some()
                        && world.tile_of(b) == world.tile_of(a)) by {
                lemma_index_decodes(w, h, world.positions@[a].x as int, world.positions@[a].y as int);
                let t = world.tile_of(a);
                if world.blocker_upto(t, n as int) {
                    let b = choose|b: int| 0 <= b < n && (#[trigger] world.blockers@[b]).is_some() && world.tile_of(b) == t;
                    assert(b != a);
                }
            }
        }
    }
}

proof fn lemma_occupants_same(w1: World, w2: World, t: int, n: int)
    requires
        w1.positions@ == w2.positions@,
        w1.map.width == w2.map.width,
    ensures
        w1.occupants_upto(t, n) == w2.occupants_upto(t, n),
    decreases n,
{
    if n > 0 {
        lemma_occupants_same(w1, w2, t, n - 1);
    }
}

} // verus!
