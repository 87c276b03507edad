use bracket_lib::prelude::{
    a_star_search, field_of_view, Algorithm2D, BaseMap, DistanceAlg, Point, RandomNumberGenerator,
    SmallVec,
};
use roguelike::{
    try_move_player, GameMap, MapManagementSystem, MonsterAISystem, MonsterAction, MoveOutcome,
    Name, Position, Room, TurnState, Vision, VisibilitySystem, World, DIAGONAL_COST,
    ORTHOGONAL_COST,
};

/// The level as bracket-lib's field of view and path search see it.
struct Level<'a>(&'a GameMap);

impl BaseMap for Level<'_> {
    fn is_opaque(&self, idx: usize) -> bool {
        self.0.is_opaque(idx)
    }

    fn get_available_exits(&self, idx: usize) -> SmallVec<[(usize, f32); 10]> {
        self.0
            .available_exits(idx)
            .iter()
            .map(|&(t, cost)| (t, cost as f32 / ORTHOGONAL_COST as f32))
            .collect()
    }

    fn get_pathing_distance(&self, idx1: usize, idx2: usize) -> f32 {
        let (x1, y1) = self.0.idx_xy(idx1);
        let (x2, y2) = self.0.idx_xy(idx2);
        DistanceAlg::Pythagoras.distance2d(Point::new(x1, y1), Point::new(x2, y2))
    }
}

impl Algorithm2D for Level<'_> {
    fn dimensions(&self) -> Point {
        Point::new(self.0.width, self.0.height)
    }
}

fn fields_of_view(w: &World) -> Vec<Vec<Position>> {
    (0..w.positions.len())
        .map(|a| match &w.visions[a] {
            Some(v) if v.recompute => {
                let p = w.positions[a];
                field_of_view(Point::new(p.x, p.y), v.range, &Level(&w.map))
                    .iter()
                    .map(|q| Position::new(q.x, q.y))
                    .collect()
            }
            _ => Vec::new(),
        })
        .collect()
}

fn paths(w: &World) -> Vec<Vec<usize>> {
    let target = w.player_pos;
    (0..w.positions.len())
        .map(|a| {
            if w.wants_path(a, target) {
                let p = w.positions[a];
                let found = a_star_search(
                    w.map.xy_idx(p.x, p.y),
                    w.map.xy_idx(target.x, target.y),
                    &Level(&w.map),
                );
                if found.success {
                    found.steps
                } else {
                    Vec::new()
                }
            } else {
                Vec::new()
            }
        })
        .collect()
}

fn visibility_pass(w: &mut World) {
    let fov = fields_of_view(w);
    VisibilitySystem {}.run(w, &fov);
}

/// Visibility, monster decisions, occupancy rebuild.
fn system_pass(w: &mut World, rng: &mut RandomNumberGenerator) -> Vec<MonsterAction> {
    visibility_pass(w);
    let found = paths(w);
    let actions = MonsterAISystem {}.run(w, &found, rng);
    MapManagementSystem {}.run(w);
    actions
}

fn new_vision() -> Vision {
    Vision { visible: Vec::new(), range: 8, recompute: true }
}

fn populate(map: GameMap) -> World {
    let rooms = map.rooms.clone();
    let mut w = World::new(map);
    let (px, py) = rooms[0].center();
    let p = w.spawn(Position::new(px, py));
    w.set_player(p);
    w.set_name(p, Name { name: String::from("Hero") });
    w.set_vision(p, new_vision());
    for room in rooms.iter().skip(1) {
        let (x, y) = room.center();
        let m = w.spawn(Position::new(x, y));
        w.set_name(m, Name { name: String::from("Orc") });
        w.set_vision(m, new_vision());
        w.set_monster(m);
    }
    MapManagementSystem {}.run(&mut w);
    visibility_pass(&mut w);
    w
}

#[test]
fn generated_level_first_turn() {
    let mut played = 0;
    for seed in 0..20u64 {
        let mut rng = RandomNumberGenerator::seeded(seed);
        let map = GameMap::generate(80, 50, &mut rng);
        if map.rooms.len() < 2 {
            continue;
        }
        played += 1;
        let target = map.rooms[1].center();
        let mut w = populate(map);
        let p = w.find_player().unwrap();
        assert!(!w.visions[p].as_ref().unwrap().recompute);
        let start = w.positions[p];
        let dx = (target.0 - start.x).signum();
        let dy = (target.1 - start.y).signum();
        assert_eq!(try_move_player(dx, dy, &mut w), TurnState::Running);
        assert_eq!(w.positions[p], Position::new(start.x + dx, start.y + dy));
        assert!(w.visions[p].as_ref().unwrap().recompute);

        system_pass(&mut w, &mut rng);
        let v = w.visions[p].as_ref().unwrap();
        assert!(!v.recompute);
        assert!(!v.visible.is_empty());
        assert!(v.visible.contains(&w.player_pos));
        assert!(w.map.visible[w.map.xy_idx(w.player_pos.x, w.player_pos.y)]);

        // On the next turn, once views are refreshed, every monster that sees the player
        // engages and the others wander.
        visibility_pass(&mut w);
        let sees: Vec<bool> = (0..w.positions.len())
            .map(|a| match &w.visions[a] {
                Some(v) => v.visible.contains(&w.player_pos),
                None => false,
            })
            .collect();
        let found = paths(&w);
        let actions = MonsterAISystem {}.run(&mut w, &found, &mut rng);
        MapManagementSystem {}.run(&mut w);
        for a in 0..actions.len() {
            if w.monsters[a].is_none() {
                assert_eq!(actions[a], MonsterAction::Hold);
            } else if sees[a] {
                assert!(matches!(
                    actions[a],
                    MonsterAction::Attack | MonsterAction::Chase(_) | MonsterAction::Hold
                ));
            } else {
                assert!(matches!(actions[a], MonsterAction::Wander(_)));
            }
        }
    }
    assert!(played > 10);
}

#[test]
fn monster_switches_from_wander_to_chase() {
    let mut map = GameMap::empty(80, 50);
    assert!(map.place_room(Room::new(10, 10, 6, 6), true));
    map.carve_corridor_horizontal(16, 23, 13);
    map.compute_blocked();
    let mut w = World::new(map);
    let p = w.spawn(Position::new(13, 13));
    w.set_player(p);
    w.set_vision(p, new_vision());
    // At the dead end of the corridor, ten tiles from the player.
    let m = w.spawn(Position::new(23, 13));
    w.set_monster(m);
    w.set_vision(m, new_vision());
    MapManagementSystem {}.run(&mut w);
    visibility_pass(&mut w);
    assert!(!w.visions[m].as_ref().unwrap().visible.contains(&w.player_pos));

    let mut rng = RandomNumberGenerator::seeded(1);
    // Turn 1: the player steps towards the corridor, still out of the monster's sight; the
    // monster's only exit is back along the corridor.
    assert_eq!(try_move_player(1, 0, &mut w), TurnState::Running);
    let actions = system_pass(&mut w, &mut rng);
    assert_eq!(actions[m], MonsterAction::Wander(MoveOutcome::Moved));
    assert_eq!(w.positions[m], Position::new(22, 13));
    assert!(!w.visions[p].as_ref().unwrap().recompute);
    assert!(!w.visions[p].as_ref().unwrap().visible.is_empty());

    // Turn 2: the player steps on; with its view refreshed the monster sees it and chases.
    assert_eq!(try_move_player(1, 0, &mut w), TurnState::Running);
    let actions = system_pass(&mut w, &mut rng);
    assert!(w.visions[m].as_ref().unwrap().visible.contains(&Position::new(15, 13)));
    assert_eq!(actions[m], MonsterAction::Chase(MoveOutcome::Moved));
    assert_eq!(w.positions[m], Position::new(21, 13));
}

#[test]
fn path_search_prefers_orthogonal_costs() {
    let mut map = GameMap::empty(20, 15);
    map.carve_room(&Room::new(2, 2, 10, 8));
    map.compute_blocked();
    let level = Level(&map);
    let exits = level.get_available_exits(map.xy_idx(5, 5));
    assert_eq!(exits.len(), 8);
    for (t, cost) in exits.iter() {
        let (x, y) = map.idx_xy(*t);
        if x == 5 || y == 5 {
            assert_eq!(*cost, 1.0);
        } else {
            assert_eq!(*cost, DIAGONAL_COST as f32 / ORTHOGONAL_COST as f32);
            assert!((cost - 1.4142).abs() < 1e-6);
        }
    }
    let found = a_star_search(map.xy_idx(3, 5), map.xy_idx(9, 5), &level);
    assert!(found.success);
    let steps: Vec<(i32, i32)> = found.steps.iter().map(|i| map.idx_xy(*i)).collect();
    assert_eq!(steps, (3..=9).map(|x| (x, 5)).collect::<Vec<(i32, i32)>>());
}
