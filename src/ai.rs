use vstd::prelude::*;
use bracket_lib::prelude::RandomNumberGenerator;
use crate::components::{Position, Vision};
use crate::map::{GameMap, lemma_index_decodes};
use crate::pathing::{direction, is_unit_step};
use crate::rng::random_exit;
use crate::world::{MoveOutcome, World};

verus! {

/// What a monster did on its turn.
#[derive(Clone, Copy, PartialEq, Eq, Structural, Debug)]
pub enum MonsterAction {
    /// The player is within reach: the monster attacks and does not move.
    Attack,
    /// The monster saw the player and stepped along a shortest path towards it.
    Chase(MoveOutcome),
    /// The monster did not see the player and stepped to a random exit of its tile.
    Wander(MoveOutcome),
    /// Nothing happened: not a monster, no usable path, or no exit.
    Hold,
}

/// `v` marked for recomputation.
pub open spec fn marked(v: Option<Vision>) -> Option<Vision> {
    match v {
        Some(v) => Some(Vision { visible: v.visible, range: v.range, recompute: true }),
        None => None,
    }
}

proof fn lemma_exits_upto_len(m: GameMap, origin: int, k: int)
    ensures
        m.exits_upto(origin, k).len() <= if k < 0 { 0 } else { k },
    decreases k,
{
    if k > 0 {
        lemma_exits_upto_len(m, origin, k - 1);
    }
}

proof fn lemma_first_fighter_same(w1: World, w2: World, occupants: Seq<usize>, k: int)
    requires
        w1.fighters@ == w2.fighters@,
    ensures
        w1.first_fighter_from(occupants, k) == w2.first_fighter_from(occupants, k),
    decreases occupants.len() - k,
{
    if 0 <= k < occupants.len() {
        lemma_first_fighter_same(w1, w2, occupants, k + 1);
    }
}

/// Two integers whose squares sum to at most two are each between -1 and 1.
proof fn lemma_reach(dx: int, dy: int)
    ensures
        dx * dx + dy * dy <= 2 <==> (-1 <= dx <= 1 && -1 <= dy <= 1),
{
    if -1 <= dx <= 1 && -1 <= dy <= 1 {
        assert(dx * dx <= 1) by (nonlinear_arith)
            requires -1 <= dx <= 1;
        assert(dy * dy <= 1) by (nonlinear_arith)
            requires -1 <= dy <= 1;
    } else {
        assert(dx * dx + dy * dy >= 4) by (nonlinear_arith)
            requires !(-1 <= dx <= 1 && -1 <= dy <= 1);
    }
}

impl World {
    /// Whether the field of view of `actor` holds `target`.
    pub open spec fn sees(self, actor: int, target: Position) -> bool {
        self.visions@[actor].is_some() && self.visions@[actor].unwrap().visible@.contains(target)
    }

    /// Whether `target` lies at a Euclidean distance below 1.5 from `actor`: the same tile or
    /// one of its eight neighbours.
    pub open spec fn in_reach(self, actor: int, target: Position) -> bool {
        let dx = self.positions@[actor].x - target.x;
        let dy = self.positions@[actor].y - target.y;
        dx * dx + dy * dy <= 2
    }

    /// Whether a path found by the search gives the next step of `actor`: it has at least two
    /// nodes, starts on the actor's tile, and its second node is one of the exits of that tile.
    pub open spec fn path_usable(self, actor: int, path: Seq<usize>) -> bool {
        let exits = self.map.exits(self.tile_of(actor));
        &&& path.len() >= 2
        &&& path[0] == self.tile_of(actor)
        &&& exists|k: int| 0 <= k < exits.len() && (#[trigger] exits[k]).0 == path[1]
    }

    /// The displacement that takes `actor` to tile `t`.
    pub open spec fn delta_to(self, actor: int, t: int) -> (int, int) {
        (self.map.col(t) - self.positions@[actor].x, self.map.row(t) - self.positions@[actor].y)
    }

    /// The position and field of view of `actor` are the same in `self` and `new`.
    pub open spec fn stays(self, new: World, actor: int) -> bool {
        new.positions@[actor] == self.positions@[actor] && new.visions@[actor] == self.visions@[actor]
    }

    /// `actor` attempted the move `d` in `self`, which resolved to `o`, and in `new` it stands
    /// and sees accordingly.
    pub open spec fn moved_as(self, new: World, actor: int, d: (int, int), o: MoveOutcome) -> bool {
        let c = self.move_target(actor, d.0, d.1);
        &&& o == self.move_outcome(actor, d.0, d.1)
        &&& if o == MoveOutcome::Moved {
            new.positions@[actor] == (Position { x: c.0 as i32, y: c.1 as i32 }) && new.visions@[actor]
                == marked(self.visions@[actor])
        } else {
            self.stays(new, actor)
        }
    }

    /// `act` is what the turn of `actor` in `self` may give, with the player at `target` and
    /// `path` the shortest path found from the actor to the player, and `new` holds the
    /// actor's resulting position and field of view. A monster that sees the player attacks
    /// when it is within reach and otherwise steps to the second node of the path; one that
    /// does not see the player steps to one of the exits of its tile. It holds only when no
    /// such step exists; actors that are not monsters always hold.
    pub open spec fn turn_taken(
        self,
        new: World,
        actor: int,
        target: Position,
        path: Seq<usize>,
        act: MonsterAction,
    ) -> bool {
        let monster = self.monsters@[actor].is_some();
        let sees = self.sees(actor, target);
        let reach = self.in_reach(actor, target);
        let exits = self.map.exits(self.tile_of(actor));
        match act {
            MonsterAction::Hold => self.stays(new, actor) && (!monster || (sees && !reach && !self.path_usable(
                actor,
                path,
            )) || (!sees && exits.len() == 0)),
            MonsterAction::Attack => self.stays(new, actor) && monster && sees && reach,
            MonsterAction::Chase(o) => monster && sees && !reach && self.path_usable(actor, path) && self.moved_as(
                new,
                actor,
                self.delta_to(actor, path[1] as int),
                o,
            ),
            MonsterAction::Wander(o) => monster && !sees && exists|k: int|
                0 <= k < exits.len() && self.moved_as(
                    new,
                    actor,
                    self.delta_to(actor, (#[trigger] exits[k]).0 as int),
                    o,
                ),
        }
    }

    /// `new` differs from `self` at most in the position and field of view of `actor` and in
    /// the cached player position, which follows the player.
    pub open spec fn only_actor_changed(self, new: World, actor: int) -> bool {
        &&& new.map == self.map
        &&& new.positions@.len() == self.positions@.len()
        &&& forall|b: int|
            0 <= b < self.positions@.len() && b != actor ==> #[trigger] new.positions@[b] == self.positions@[b]
        &&& new.visions@.len() == self.visions@.len()
        &&& forall|b: int|
            0 <= b < self.visions@.len() && b != actor ==> #[trigger] new.visions@[b] == self.visions@[b]
        &&& new.names@ == self.names@
        &&& new.renderables@ == self.renderables@
        &&& new.players@ == self.players@
        &&& new.monsters@ == self.monsters@
        &&& new.blockers@ == self.blockers@
        &&& new.fighters@ == self.fighters@
        &&& new.player_pos == if self.players@[actor].is_some() {
            new.positions@[actor]
        } else {
            self.player_pos
        }
    }

    /// Whether `actor` is a monster that sees the player at `target` from outside its reach,
    /// and so needs a shortest path to the player for its turn.
    pub fn wants_path(&self, actor: usize, target: Position) -> (r: bool)
        requires
            self.wf(),
            actor < self.count(),
        ensures
            r == (self.monsters@[actor as int].is_some() && self.sees(actor as int, target) && !self.in_reach(
                actor as int,
                target,
            )),
    {
        self.monsters[actor].is_some() && self.sees_target(actor, target) && !self.within_reach(actor, target)
    }

    /// Whether the field of view of `actor` holds `target`.
    pub fn sees_target(&self, actor: usize, target: Position) -> (r: bool)
        requires
            actor < self.visions@.len(),
        ensures
            r == self.sees(actor as int, target),
    {
        match &self.visions[actor] {
            Some(v) => {
                let mut k: usize = 0;
                while k < v.visible.len()
                    invariant
                        actor < self.visions@.len(),
                        self.visions@[actor as int] == Some(*v),
                        k <= v.visible@.len(),
                        forall|j: int| 0 <= j < k ==> v.visible@[j] != target,
                    decreases v.visible@.len() - k,
                {
                    if v.visible[k] == target {
                        proof {
                            assert(v.visible@[k as int] == target);
                            assert(self.visions@[actor as int].unwrap().visible@ == v.visible@);
                            assert(v.visible@.contains(target));
                        }
                        return true;
                    }
                    k = k + 1;
                }
                false
            },
            None => false,
        }
    }

    /// Whether `target` lies at a Euclidean distance below 1.5 from `actor`.
    pub fn within_reach(&self, actor: usize, target: Position) -> (r: bool)
        requires
            actor < self.positions@.len(),
        ensures
            r == self.in_reach(actor as int, target),
    {
        let pos = self.positions[actor];
        let dx = pos.x as i64 - target.x as i64;
        let dy = pos.y as i64 - target.y as i64;
        proof {
            lemma_reach(dx as int, dy as int);
        }
        -1 <= dx && dx <= 1 && -1 <= dy && dy <= 1
    }

    /// Moves `actor` towards tile `t` through `attempt_move`, with the displacement that leads
    /// from the actor's tile to `t`. A monster's turn calls it with the exit it chose: the
    /// second node of its path when it chases, the exit drawn at random when it wanders.
    pub fn step_to(&mut self, actor: usize, t: usize) -> (o: MoveOutcome)
        requires
            old(self).wf(),
            actor < old(self).count(),
            t < old(self).map.size(),
        ensures
            final(self).wf(),
            old(self).moved_as(*final(self), actor as int, old(self).delta_to(actor as int, t as int), o),
            old(self).only_actor_changed(*final(self), actor as int),
    {
        let (x, y) = self.map.idx_xy(t);
        let pos = self.positions[actor];
        let dx = x - pos.x;
        let dy = y - pos.y;
        self.attempt_move(actor, dx, dy)
    }

    /// The turn of `actor` with the player at `target`. `path` is the shortest path found
    /// from the actor's tile to the player's tile (empty when none was found); it is used
    /// only when the actor is a monster that sees the player from outside its reach. A
    /// monster that does not see the player picks one of the exits of its tile at random.
    pub fn monster_turn(
        &mut self,
        actor: usize,
        target: Position,
        path: &Vec<usize>,
        rng: &mut RandomNumberGenerator,
    ) -> (act: MonsterAction)
        requires
            old(self).wf(),
            actor < old(self).count(),
        ensures
            final(self).wf(),
            old(self).turn_taken(*final(self), actor as int, target, path@, act),
            old(self).only_actor_changed(*final(self), actor as int),
    {
        if self.monsters[actor].is_none() {
            return MonsterAction::Hold;
        }
        if self.sees_target(actor, target) {
            if self.within_reach(actor, target) {
                return MonsterAction::Attack;
            }
            let pos = self.positions[actor];
            let origin = self.map.xy_idx(pos.x, pos.y);
            if path.len() < 2 || path[0] != origin {
                return MonsterAction::Hold;
            }
            let next = path[1];
            let exits = self.map.available_exits(origin);
            let mut k: usize = 0;
            while k < exits.len()
                invariant
                    *self == *old(self),
                    self.wf(),
                    actor < self.count(),
                    self.monsters@[actor as int].is_some(),
                    self.sees(actor as int, target),
                    !self.in_reach(actor as int, target),
                    origin == self.tile_of(actor as int),
                    exits@ == self.map.exits(origin as int),
                    forall|j: int| 0 <= j < exits@.len() ==> ((#[trigger] exits@[j]).0 as int) < self.map.size(),
                    path@.len() >= 2,
                    path@[0] == origin,
                    next == path@[1],
                    k <= exits@.len(),
                    forall|j: int| 0 <= j < k ==> (#[trigger] exits@[j]).0 != next,
                decreases exits@.len() - k,
            {
                if exits[k].0 == next {
                    let ghost before = *self;
                    let o = self.step_to(actor, next);
                    proof {
                        assert(origin == before.tile_of(actor as int));
                        assert(exits@ == before.map.exits(before.tile_of(actor as int)));
                        assert(exits@[k as int].0 == path@[1]);
                    }
                    return MonsterAction::Chase(o);
                }
                k = k + 1;
            }
            MonsterAction::Hold
        } else {
            let pos = self.positions[actor];
            let origin = self.map.xy_idx(pos.x, pos.y);
            let exits = self.map.available_exits(origin);
            proof {
                lemma_exits_upto_len(self.map, origin as int, 8);
            }
            match random_exit(rng, &exits) {
                Some(t) => {
                    let ghost k = choose|k: int| 0 <= k < exits@.len() && (#[trigger] exits@[k]).0 == t;
                    let ghost before = *self;
                    let o = self.step_to(actor, t);
                    proof {
                        assert(origin == before.tile_of(actor as int));
                        assert(exits@ == before.map.exits(before.tile_of(actor as int)));
                        assert(before.moved_as(*self, actor as int, before.delta_to(actor as int, exits@[k].0 as int), o));
                    }
                    MonsterAction::Wander(o)
                },
                None => MonsterAction::Hold,
            }
        }
    }
}

/// Every exit of a tile leads to one of its eight neighbours.
proof fn lemma_exits_are_neighbours(m: GameMap, origin: int, n: int)
    requires
        m.wf(),
        0 <= origin < m.size(),
        0 <= n <= 8,
    ensures
        forall|k: int|
            0 <= k < m.exits_upto(origin, n).len() ==> {
                let e = #[trigger] m.exits_upto(origin, n)[k];
                &&& (e.0 as int) < m.size()
                &&& is_unit_step((m.col(e.0 as int) - m.col(origin), m.row(e.0 as int) - m.row(origin)))
            },
    decreases n,
{
    if n > 0 {
        lemma_exits_are_neighbours(m, origin, n - 1);
        let rest = m.exits_upto(origin, n - 1);
        let d = direction(n - 1);
        let x = m.col(origin) + d.0;
        let y = m.row(origin) + d.1;
        if m.exit_open(origin, n - 1) {
            lemma_index_decodes(m.width as int, m.height as int, x, y);
        }
        assert forall|k: int| 0 <= k < m.exits_upto(origin, n).len() implies {
            let e = #[trigger] m.exits_upto(origin, n)[k];
            &&& (e.0 as int) < m.size()
            &&& is_unit_step((m.col(e.0 as int) - m.col(origin), m.row(e.0 as int) - m.row(origin)))
        } by {
            if k < rest.len() {
                assert(m.exits_upto(origin, n)[k] == rest[k]);
            }
        }
    }
}

/// A monster's turn moves it by at most one tile in each direction.
proof fn lemma_turn_moves_one_tile(
    old: World,
    new: World,
    actor: int,
    target: Position,
    path: Seq<usize>,
    act: MonsterAction,
)
    requires
        old.wf(),
        0 <= actor < old.count(),
        old.turn_taken(new, actor, target, path, act),
    ensures
        -1 <= new.positions@[actor].x - old.positions@[actor].x <= 1,
        -1 <= new.positions@[actor].y - old.positions@[actor].y <= 1,
{
    let origin = old.tile_of(actor);
    let p = old.positions@[actor];
    lemma_index_decodes(old.map.width as int, old.map.height as int, p.x as int, p.y as int);
    lemma_exits_are_neighbours(old.map, origin, 8);
    let exits = old.map.exits(origin);
    match act {
        MonsterAction::Chase(o) => {
            let k = choose|k: int| 0 <= k < exits.len() && (#[trigger] exits[k]).0 == path[1];
            assert(exits[k].0 == path[1]);
        },
        MonsterAction::Wander(o) => {
            let k = choose|k: int|
                0 <= k < exits.len() && old.moved_as(
                    new,
                    actor,
                    old.delta_to(actor, (#[trigger] exits[k]).0 as int),
                    o,
                );
            assert(exits[k] == exits[k]);
        },
        _ => {},
    }
}

/// The turn of `actor` reads only its own entries, the map and the combat statistics, and
/// records only its own position and field of view.
proof fn lemma_turn_taken_transfer(
    o1: World,
    o2: World,
    n1: World,
    n2: World,
    actor: int,
    target: Position,
    path: Seq<usize>,
    act: MonsterAction,
)
    requires
        o1.turn_taken(n1, actor, target, path, act),
        o1.map == o2.map,
        o1.fighters@ == o2.fighters@,
        o1.positions@[actor] == o2.positions@[actor],
        o1.visions@[actor] == o2.visions@[actor],
        o1.monsters@[actor] == o2.monsters@[actor],
        n1.positions@[actor] == n2.positions@[actor],
        n1.visions@[actor] == n2.visions@[actor],
    ensures
        o2.turn_taken(n2, actor, target, path, act),
{
    assert forall|d: (int, int)| o1.move_outcome(actor, d.0, d.1) == o2.move_outcome(actor, d.0, d.1) by {
        let c = o1.move_target(actor, d.0, d.1);
        let t = o1.map.index_of(c.0, c.1);
        lemma_first_fighter_same(o1, o2, o1.map.tile_entities@[t]@, 0);
    }
    match act {
        MonsterAction::Wander(o) => {
            let exits = o1.map.exits(o1.tile_of(actor));
            let k = choose|k: int|
                0 <= k < exits.len() && o1.moved_as(
                    n1,
                    actor,
                    o1.delta_to(actor, (#[trigger] exits[k]).0 as int),
                    o,
                );
            let d = o1.delta_to(actor, exits[k].0 as int);
            assert(o1.move_outcome(actor, d.0, d.1) == o2.move_outcome(actor, d.0, d.1));
            assert(o2.moved_as(n2, actor, o2.delta_to(actor, exits[k].0 as int), o));
            assert(o2.tile_of(actor) == o1.tile_of(actor));
            assert(o2.map.exits(o2.tile_of(actor)) == exits);
            assert(0 <= k < exits.len());
        },
        MonsterAction::Chase(o) => {
            let d = o1.delta_to(actor, path[1] as int);
            assert(o1.move_outcome(actor, d.0, d.1) == o2.move_outcome(actor, d.0, d.1));
        },
        _ => {},
    }
}

/// The monster AI: once per turn, every monster attacks, chases or wanders.
pub struct MonsterAISystem {}

impl MonsterAISystem {
    /// Gives every actor its turn, in order of identifier, with the player where the cached
    /// player position says at the start of the pass; `paths[a]` is the shortest path found
    /// from actor `a` to the player (empty when none was found or none was needed). Returns
    /// what each actor did. Moves go through `attempt_move`, against the occupancy of the
    /// last rebuild. Nothing but the positions and fields of view of the movers changes.
    pub fn run(
        &mut self,
        world: &mut World,
        paths: &Vec<Vec<usize>>,
        rng: &mut RandomNumberGenerator,
    ) -> (actions: Vec<MonsterAction>)
        requires
            old(world).wf(),
            paths@.len() == old(world).count(),
        ensures
            final(world).wf(),
            actions@.len() == old(world).count(),
            forall|a: int|
                0 <= a < old(world).count() ==> old(world).turn_taken(
                    *final(world),
                    a,
                    old(world).player_pos,
                    paths@[a]@,
                    #[trigger] actions@[a],
                ),
            final(world).map == old(world).map,
            final(world).positions@.len() == old(world).positions@.len(),
            final(world).visions@.len() == old(world).visions@.len(),
            final(world).names@ == old(world).names@,
            final(world).renderables@ == old(world).renderables@,
            final(world).players@ == old(world).players@,
            final(world).monsters@ == old(world).monsters@,
            final(world).blockers@ == old(world).blockers@,
            final(world).fighters@ == old(world).fighters@,
            forall|a: int|
                0 <= a < old(world).count() && old(world).monsters@[a].is_none() ==> #[trigger] final(
                    world).positions@[a] == old(world).positions@[a],
            forall|a: int|
                0 <= a < old(world).count() ==> -1 <= #[trigger] final(world).positions@[a].x - old(
                    world).positions@[a].x <= 1 && -1 <= final(world).positions@[a].y - old(
                    world).positions@[a].y <= 1,
            !(old(world).has_player() && old(world).monsters@[old(world).player()].is_some())
                ==> final(world).player_pos == old(world).player_pos,
    {
        let target = world.player_pos;
        let n = world.positions.len();
        let mut actions: Vec<MonsterAction> = Vec::new();
        let mut a: usize = 0;
        while a < n
            invariant
                world.wf(),
                n == world.count(),
                n == old(world).count(),
                a <= n,
                paths@.len() == n,
                target == old(world).player_pos,
                actions@.len() == a,
                world.map == old(world).map,
                world.visions@.len() == n,
                world.names@ == old(world).names@,
                world.renderables@ == old(world).renderables@,
                world.players@ == old(world).players@,
                world.monsters@ == old(world).monsters@,
                world.blockers@ == old(world).blockers@,
                world.fighters@ == old(world).fighters@,
                !(old(world).has_player() && old(world).monsters@[old(world).player()].is_some())
                    ==> world.player_pos == old(world).player_pos,
                forall|b: int|
                    a <= b < n ==> #[trigger] world.positions@[b] == old(world).positions@[b]
                        && world.visions@[b] == old(world).visions@[b],
                forall|b: int|
                    0 <= b < a ==> old(world).turn_taken(
                        *world,
                        b,
                        target,
                        paths@[b]@,
                        #[trigger] actions@[b],
                    ),
            decreases n - a,
        {
            let ghost before = *world;
            let act = world.monster_turn(a, target, &paths[a], rng);
            proof {
                assert(before.positions@[a as int] == old(world).positions@[a as int]);
                lemma_turn_taken_transfer(before, *old(world), *world, *world, a as int, target, paths@[a as int]@, act);
                assert forall|b: int| a + 1 <= b < n implies #[trigger] world.positions@[b] == old(world).positions@[b]
                    && world.visions@[b] == old(world).visions@[b] by {
                    assert(world.positions@[b] == before.positions@[b]);
                    assert(world.visions@[b] == before.visions@[b]);
                }
                assert forall|b: int| 0 <= b < a implies old(world).turn_taken(
                    *world,
                    b,
                    target,
                    paths@[b]@,
                    #[trigger] actions@[b],
                ) by {
                    lemma_turn_taken_transfer(*old(world), *old(world), before, *world, b, target, paths@[b]@, actions@[b]);
                }
            }
            actions.push(act);
            proof {
                assert forall|b: int| 0 <= b < a + 1 implies old(world).turn_taken(
                    *world,
                    b,
                    target,
                    paths@[b]@,
                    #[trigger] actions@[b],
                ) by {
                    if b == a {
                        assert(actions@[b] == act);
                    }
                }
            }
            a = a + 1;
        }
        proof {
            assert forall|b: int| 0 <= b < n implies -1 <= #[trigger] world.positions@[b].x - old(
                world).positions@[b].x <= 1 && -1 <= world.positions@[b].y - old(world).positions@[b].y
                <= 1 by {
                lemma_turn_moves_one_tile(*old(world), *world, b, target, paths@[b]@, actions@[b]);
            }
            assert forall|b: int| 0 <= b < n && old(world).monsters@[b].is_none() implies #[trigger] world.positions@[b]
                == old(world).positions@[b] by {
                assert(old(world).turn_taken(*world, b, target, paths@[b]@, actions@[b]));
            }
        }
        actions
    }
}

} // verus!
