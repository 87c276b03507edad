use vstd::prelude::*;
use crate::components::{Blocking, Fighter, Monster, Name, Player, Position, Renderable, Vision};
use crate::map::GameMap;

verus! {

/// The actors of a level and the level itself. An actor is an identifier, an index into the
/// parallel tables below: every actor has a position, and carries each other kind of data
/// when its entry in that table is `Some`. `player_pos` caches the position of the player for
/// fast lookups; it is written only where the player's own position is.
pub struct World {
    pub map: GameMap,
    pub positions: Vec<Position>,
    pub names: Vec<Option<Name>>,
    pub renderables: Vec<Option<Renderable>>,
    pub players: Vec<Option<Player>>,
    pub monsters: Vec<Option<Monster>>,
    pub visions: Vec<Option<Vision>>,
    pub blockers: Vec<Option<Blocking>>,
    pub fighters: Vec<Option<Fighter>>,
    pub player_pos: Position,
}

/// The outcome of an attempted move.
#[derive(Clone, Copy, PartialEq, Eq, Structural, Debug)]
pub enum MoveOutcome {
    /// The actor now stands on the target tile.
    Moved,
    /// The target tile is outside the level or blocked; nothing changed.
    Blocked,
    /// An actor with combat statistics stands on the target tile and is attacked; the mover
    /// stays where it is.
    Attacked(usize),
}

/// Whether a turn was taken.
#[derive(Clone, Copy, PartialEq, Eq, Structural, Debug)]
pub enum TurnState {
    Paused,
    Running,
}

impl World {
    /// Number of actors.
    pub open spec fn count(self) -> int {
        self.positions@.len() as int
    }

    /// The tables have one entry per actor, every actor stands strictly inside the outer
    /// ring, every occupant recorded on a tile is an actor, at most one actor is the player,
    /// and the cached player position is the player's position.
    pub open spec fn wf(self) -> bool {
        &&& self.map.wf()
        &&& self.names@.len() == self.count()
        &&& self.renderables@.len() == self.count()
        &&& self.players@.len() == self.count()
        &&& self.monsters@.len() == self.count()
        &&& self.visions@.len() == self.count()
        &&& self.blockers@.len() == self.count()
        &&& self.fighters@.len() == self.count()
        &&& forall|a: int|
            0 <= a < self.count() ==> self.map.interior(
                (#[trigger] self.positions@[a]).x as int,
                self.positions@[a].y as int,
            )
        &&& forall|t: int, k: int|
            0 <= t < self.map.size() && 0 <= k < (#[trigger] self.map.tile_entities@[t])@.len() ==> (
            #[trigger] self.map.tile_entities@[t]@[k]) < self.count()
        &&& forall|a: int, b: int|
            0 <= a < self.count() && 0 <= b < self.count() && (#[trigger] self.players@[a]).is_some()
                && (#[trigger] self.players@[b]).is_some() ==> a == b
        &&& forall|a: int|
            0 <= a < self.count() && (#[trigger] self.players@[a]).is_some() ==> self.player_pos
                == self.positions@[a]
    }

    /// Whether some actor is the player.
    pub open spec fn has_player(self) -> bool {
        exists|a: int| 0 <= a < self.count() && (#[trigger] self.players@[a]).is_some()
    }

    /// The player, when there is one.
    pub open spec fn player(self) -> int {
        choose|a: int| 0 <= a < self.count() && (#[trigger] self.players@[a]).is_some()
    }

    /// The first of `occupants`, from position `k` on, that carries combat statistics.
    pub open spec fn first_fighter_from(self, occupants: Seq<usize>, k: int) -> Option<usize>
        decreases occupants.len() - k,
    {
        if k < 0 || k >= occupants.len() {
            None
        } else if self.fighters@[occupants[k] as int].is_some() {
            Some(occupants[k])
        } else {
            self.first_fighter_from(occupants, k + 1)
        }
    }

    /// The tile that `actor` tries to reach with displacement `(dx, dy)`.
    pub open spec fn move_target(self, actor: int, dx: int, dy: int) -> (int, int) {
        (self.positions@[actor].x + dx, self.positions@[actor].y + dy)
    }

    /// How a move of `actor` by `(dx, dy)` resolves: outside the boundary it is blocked; an
    /// occupant with combat statistics on the target is attacked (the first one listed);
    /// otherwise the actor moves unless the target is blocked.
    pub open spec fn move_outcome(self, actor: int, dx: int, dy: int) -> MoveOutcome {
        let c = self.move_target(actor, dx, dy);
        if !self.map.interior(c.0, c.1) {
            MoveOutcome::Blocked
        } else {
            let t = self.map.index_of(c.0, c.1);
            match self.first_fighter_from(self.map.tile_entities@[t]@, 0) {
                Some(f) => MoveOutcome::Attacked(f),
                None => if self.map.blocked@[t] {
                    MoveOutcome::Blocked
                } else {
                    MoveOutcome::Moved
                },
            }
        }
    }

    /// `new` is `self` after `actor` relocated to `target`: its position is the target, its
    /// field of view is marked for recomputation, the cached player position follows when it
    /// is the player, and nothing else changed.
    pub open spec fn relocated(self, new: World, actor: int, target: Position) -> bool {
        &&& new.map == self.map
        &&& new.positions@ == self.positions@.update(actor, target)
        &&& new.names@ == self.names@
        &&& new.renderables@ == self.renderables@
        &&& new.players@ == self.players@
        &&& new.monsters@ == self.monsters@
        &&& new.blockers@ == self.blockers@
        &&& new.fighters@ == self.fighters@
        &&& new.visions@.len() == self.visions@.len()
        &&& forall|b: int|
            0 <= b < self.visions@.len() && b != actor ==> #[trigger] new.visions@[b] == self.visions@[b]
        &&& match self.visions@[actor] {
            Some(v) => new.visions@[actor] == Some(
                Vision { visible: v.visible, range: v.range, recompute: true },
            ),
            None => new.visions@[actor].is_none(),
        }
        &&& new.player_pos == if self.players@[actor].is_some() {
            target
        } else {
            self.player_pos
        }
    }

    /// `new` is `self` after `actor` attempted the move `(dx, dy)`: relocated when the move
    /// resolves to `Moved`, unchanged otherwise.
    pub open spec fn after_move(self, new: World, actor: int, dx: int, dy: int) -> bool {
        if self.move_outcome(actor, dx, dy) == MoveOutcome::Moved {
            let c = self.move_target(actor, dx, dy);
            self.relocated(new, actor, Position { x: c.0 as i32, y: c.1 as i32 })
        } else {
            new == self
        }
    }

    /// The first actor listed on tile `idx` that carries combat statistics.
    fn first_fighter_at(&self, idx: usize) -> (r: Option<usize>)
        requires
            self.wf(),
            idx < self.map.size(),
        ensures
            r == self.first_fighter_from(self.map.tile_entities@[idx as int]@, 0),
    {
        let occupants = &self.map.tile_entities[idx];
        let mut k: usize = 0;
        while k < occupants.len()
            invariant
                self.wf(),
                idx < self.map.size(),
                *occupants == self.map.tile_entities@[idx as int],
                k <= occupants@.len(),
                self.first_fighter_from(occupants@, 0) == self.first_fighter_from(occupants@, k as int),
            decreases occupants@.len() - k,
        {
            let id = occupants[k];
            assert(id < self.count());
            if self.fighters[id].is_some() {
                return Some(id);
            }
            k = k + 1;
        }
        None
    }

    /// Resolves an attempted move of `actor` by `(dx, dy)`. Outside the boundary the move is
    /// blocked. An occupant of the target tile with combat statistics is attacked and the
    /// mover stays in place. Otherwise, unless the target is blocked, the actor relocates, its
    /// field of view is marked for recomputation and, for the player, the cached player
    /// position is updated. A move that is not `Moved` changes nothing.
    pub fn attempt_move(&mut self, actor: usize, dx: i32, dy: i32) -> (r: MoveOutcome)
        requires
            old(self).wf(),
            actor < old(self).count(),
        ensures
            final(self).wf(),
            r == old(self).move_outcome(actor as int, dx as int, dy as int),
            old(self).after_move(*final(self), actor as int, dx as int, dy as int),
            r != MoveOutcome::Moved ==> *final(self) == *old(self),
    {
        let pos = self.positions[actor];
        let cx = pos.x as i64 + dx as i64;
        let cy = pos.y as i64 + dy as i64;
        if !(1 <= cx && cx < (self.map.width as i64) - 1 && 1 <= cy && cy < (self.map.height as i64) - 1) {
            return MoveOutcome::Blocked;
        }
        let target = Position { x: cx as i32, y: cy as i32 };
        let idx = self.map.xy_idx(target.x, target.y);
        match self.first_fighter_at(idx) {
            Some(f) => {
                return MoveOutcome::Attacked(f);
            },
            None => {},
        }
        if self.map.blocked[idx] {
            return MoveOutcome::Blocked;
        }
        let ghost before = *self;
        self.positions.set(actor, target);
        match &mut self.visions[actor] {
            Some(v) => {
                v.recompute = true;
            },
            None => {},
        }
        if self.players[actor].is_some() {
            self.player_pos = target;
        }
        proof {
            assert forall|a: int|
                0 <= a < self.count() && (#[trigger] self.players@[a]).is_some() implies self.player_pos
                == self.positions@[a] by {
                if a != actor {
                    assert(before.players@[a].is_some() && before.players@[actor as int].is_some() ==> a == actor);
                }
            }
        }
        MoveOutcome::Moved
    }

    /// The player, when some actor carries the player tag.
    pub fn find_player(&self) -> (r: Option<usize>)
        requires
            self.wf(),
        ensures
            r.is_some() == self.has_player(),
            r.is_some() ==> r.unwrap() == self.player(),
    {
        let mut a: usize = 0;
        while a < self.players.len()
            invariant
                self.wf(),
                a <= self.count(),
                forall|b: int| 0 <= b < a ==> (#[trigger] self.players@[b]).is_none(),
            decreases self.count() - a,
        {
            if self.players[a].is_some() {
                proof {
                    let p = self.player();
                    assert(self.players@[p].is_some());
                }
                return Some(a);
            }
            a = a + 1;
        }
        None
    }
}

/// Tries to move the player by `(dx, dy)`. Returns `Running` when a turn was taken (the player
/// moved or attacked) and `Paused` otherwise; the world changes exactly as `attempt_move`
/// changes it, and not at all when there is no player.
pub fn try_move_player(dx: i32, dy: i32, world: &mut World) -> (r: TurnState)
    requires
        old(world).wf(),
    ensures
        final(world).wf(),
        !old(world).has_player() ==> r == TurnState::Paused && *final(world) == *old(world),
        old(world).has_player() ==> {
            let p = old(world).player();
            &&& r == if old(world).move_outcome(p, dx as int, dy as int) == MoveOutcome::Blocked {
                TurnState::Paused
            } else {
                TurnState::Running
            }
            &&& old(world).after_move(*final(world), p, dx as int, dy as int)
        },
{
    match world.find_player() {
        None => TurnState::Paused,
        Some(p) => {
            match world.attempt_move(p, dx, dy) {
                MoveOutcome::Blocked => TurnState::Paused,
                _ => TurnState::Running,
            }
        },
    }
}

impl World {
    /// A world with no actors on `map`; the map's occupant lists are emptied.
    pub fn new(map: GameMap) -> (w: World)
        requires
            map.wf(),
        ensures
            w.wf(),
            w.count() == 0,
            w.map.tiles@ == map.tiles@,
            w.map.rooms@ == map.rooms@,
            w.map.width == map.width,
            w.map.height == map.height,
            w.map.explored@ == map.explored@,
            w.map.visible@ == map.visible@,
            w.map.blocked@ == map.blocked@,
            w.player_pos == (Position { x: 0, y: 0 }),
    {
        let mut map = map;
        map.clear_entities();
        World {
            map,
            positions: Vec::new(),
            names: Vec::new(),
            renderables: Vec::new(),
            players: Vec::new(),
            monsters: Vec::new(),
            visions: Vec::new(),
            blockers: Vec::new(),
            fighters: Vec::new(),
            player_pos: Position { x: 0, y: 0 },
        }
    }

    /// Adds an actor at `pos`, strictly inside the outer ring, with no other data yet.
    /// Returns its identifier.
    pub fn spawn(&mut self, pos: Position) -> (id: usize)
        requires
            old(self).wf(),
            old(self).map.interior(pos.x as int, pos.y as int),
            old(self).count() < usize::MAX,
        ensures
            final(self).wf(),
            id == old(self).count(),
            final(self).map == old(self).map,
            final(self).positions@ == old(self).positions@.push(pos),
            final(self).names@ == old(self).names@.push(None),
            final(self).renderables@ == old(self).renderables@.push(None),
            final(self).players@ == old(self).players@.push(None),
            final(self).monsters@ == old(self).monsters@.push(None),
            final(self).visions@ == old(self).visions@.push(None),
            final(self).blockers@ == old(self).blockers@.push(None),
            final(self).fighters@ == old(self).fighters@.push(None),
            final(self).player_pos == old(self).player_pos,
    {
        let id = self.positions.len();
        self.positions.push(pos);
        self.names.push(None);
        self.renderables.push(None);
        self.players.push(None);
        self.monsters.push(None);
        self.visions.push(None);
        self.blockers.push(None);
        self.fighters.push(None);
        proof {
            assert forall|t: int, k: int|
                0 <= t < self.map.size() && 0 <= k < (#[trigger] self.map.tile_entities@[t])@.len() implies (
                #[trigger] self.map.tile_entities@[t]@[k]) < self.count() by {
                assert(old(self).map.tile_entities@[t]@[k] < old(self).count());
            }
            assert forall|a: int, b: int|
                0 <= a < self.count() && 0 <= b < self.count() && (#[trigger] self.players@[a]).is_some()
                    && (#[trigger] self.players@[b]).is_some() implies a == b by {
                assert(old(self).players@[a].is_some() && old(self).players@[b].is_some());
            }
            assert forall|a: int|
                0 <= a < self.count() && (#[trigger] self.players@[a]).is_some() implies self.player_pos
                    == self.positions@[a] by {
                assert(old(self).players@[a].is_some());
            }
        }
        id
    }

    /// Names actor `id`.
    pub fn set_name(&mut self, id: usize, name: Name)
        requires
            old(self).wf(),
            id < old(self).count(),
        ensures
            final(self).wf(),
            final(self).names@ == old(self).names@.update(id as int, Some(name)),
            final(self).map == old(self).map,
            final(self).positions@ == old(self).positions@,
            final(self).renderables@ == old(self).renderables@,
            final(self).players@ == old(self).players@,
            final(self).monsters@ == old(self).monsters@,
            final(self).visions@ == old(self).visions@,
            final(self).blockers@ == old(self).blockers@,
            final(self).fighters@ == old(self).fighters@,
            final(self).player_pos == old(self).player_pos,
    {
        self.names.set(id, Some(name));
    }

    /// Gives actor `id` a glyph and colors.
    pub fn set_renderable(&mut self, id: usize, renderable: Renderable)
        requires
            old(self).wf(),
            id < old(self).count(),
        ensures
            final(self).wf(),
            final(self).renderables@ == old(self).renderables@.update(id as int, Some(renderable)),
            final(self).map == old(self).map,
            final(self).positions@ == old(self).positions@,
            final(self).names@ == old(self).names@,
            final(self).players@ == old(self).players@,
            final(self).monsters@ == old(self).monsters@,
            final(self).visions@ == old(self).visions@,
            final(self).blockers@ == old(self).blockers@,
            final(self).fighters@ == old(self).fighters@,
            final(self).player_pos == old(self).player_pos,
    {
        self.renderables.set(id, Some(renderable));
    }

    /// Gives actor `id` a field of view.
    pub fn set_vision(&mut self, id: usize, vision: Vision)
        requires
            old(self).wf(),
            id < old(self).count(),
        ensures
            final(self).wf(),
            final(self).visions@ == old(self).visions@.update(id as int, Some(vision)),
            final(self).map == old(self).map,
            final(self).positions@ == old(self).positions@,
            final(self).names@ == old(self).names@,
            final(self).renderables@ == old(self).renderables@,
            final(self).players@ == old(self).players@,
            final(self).monsters@ == old(self).monsters@,
            final(self).blockers@ == old(self).blockers@,
            final(self).fighters@ == old(self).fighters@,
            final(self).player_pos == old(self).player_pos,
    {
        self.visions.set(id, Some(vision));
    }

    /// Tags actor `id` as a monster.
    pub fn set_monster(&mut self, id: usize)
        requires
            old(self).wf(),
            id < old(self).count(),
        ensures
            final(self).wf(),
            final(self).monsters@ == old(self).monsters@.update(id as int, Some(Monster {})),
            final(self).map == old(self).map,
            final(self).positions@ == old(self).positions@,
            final(self).names@ == old(self).names@,
            final(self).renderables@ == old(self).renderables@,
            final(self).players@ == old(self).players@,
            final(self).visions@ == old(self).visions@,
            final(self).blockers@ == old(self).blockers@,
            final(self).fighters@ == old(self).fighters@,
            final(self).player_pos == old(self).player_pos,
    {
        self.monsters.set(id, Some(Monster {}));
    }

    /// Makes actor `id` keep others from its tile.
    pub fn set_blocking(&mut self, id: usize)
        requires
            old(self).wf(),
            id < old(self).count(),
        ensures
            final(self).wf(),
            final(self).blockers@ == old(self).blockers@.update(id as int, Some(Blocking {})),
            final(self).map == old(self).map,
            final(self).positions@ == old(self).positions@,
            final(self).names@ == old(self).names@,
            final(self).renderables@ == old(self).renderables@,
            final(self).players@ == old(self).players@,
            final(self).monsters@ == old(self).monsters@,
            final(self).visions@ == old(self).visions@,
            final(self).fighters@ == old(self).fighters@,
            final(self).player_pos == old(self).player_pos,
    {
        self.blockers.set(id, Some(Blocking {}));
    }

    /// Gives actor `id` combat statistics.
    pub fn set_fighter(&mut self, id: usize, fighter: Fighter)
        requires
            old(self).wf(),
            id < old(self).count(),
        ensures
            final(self).wf(),
            final(self).fighters@ == old(self).fighters@.update(id as int, Some(fighter)),
            final(self).map == old(self).map,
            final(self).positions@ == old(self).positions@,
            final(self).names@ == old(self).names@,
            final(self).renderables@ == old(self).renderables@,
            final(self).players@ == old(self).players@,
            final(self).monsters@ == old(self).monsters@,
            final(self).visions@ == old(self).visions@,
            final(self).blockers@ == old(self).blockers@,
            final(self).player_pos == old(self).player_pos,
    {
        self.fighters.set(id, Some(fighter));
    }

    /// Makes actor `id` the player, unless another actor already is; the cached player
    /// position becomes its position. Returns whether `id` is now the player.
    pub fn set_player(&mut self, id: usize) -> (ok: bool)
        requires
            old(self).wf(),
            id < old(self).count(),
        ensures
            final(self).wf(),
            ok == (!old(self).has_player() || old(self).player() == id),
            ok ==> final(self).players@ == old(self).players@.update(id as int, Some(Player {})),
            ok ==> final(self).player_pos == old(self).positions@[id as int],
            !ok ==> *final(self) == *old(self),
            final(self).map == old(self).map,
            final(self).positions@ == old(self).positions@,
            final(self).names@ == old(self).names@,
            final(self).renderables@ == old(self).renderables@,
            final(self).monsters@ == old(self).monsters@,
            final(self).visions@ == old(self).visions@,
            final(self).blockers@ == old(self).blockers@,
            final(self).fighters@ == old(self).fighters@,
    {
        match self.find_player() {
            Some(p) => {
                if p != id {
                    return false;
                }
            },
            None => {},
        }
        self.players.set(id, Some(Player {}));
        self.player_pos = self.positions[id];
        proof {
            assert forall|a: int, b: int|
                0 <= a < self.count() && 0 <= b < self.count() && (#[trigger] self.players@[a]).is_some()
                    && (#[trigger] self.players@[b]).is_some() implies a == b by {
                if a != id as int {
                    assert(old(self).players@[a].is_some());
                    assert(old(self).has_player());
                }
                if b != id as int {
                    assert(old(self).players@[b].is_some());
                    assert(old(self).has_player());
                }
            }
            assert forall|a: int|
                0 <= a < self.count() && (#[trigger] self.players@[a]).is_some() implies self.player_pos
                    == self.positions@[a] by {
                if a != id as int {
                    assert(old(self).players@[a].is_some());
                    assert(old(self).has_player());
                }
            }
        }
        true
    }
}

} // verus!
