use bracket_lib::prelude::RandomNumberGenerator;
use roguelike::{
    Fighter, GameMap, MapManagementSystem, MonsterAISystem, MonsterAction, MoveOutcome, Position,
    Room, Vision, VisibilitySystem, World,
};

fn level() -> World {
    let mut m = GameMap::empty(20, 15);
    m.carve_room(&Room::new(2, 2, 8, 6));
    m.compute_blocked();
    World::new(m)
}

fn vision(recompute: bool, visible: Vec<Position>) -> Vision {
    Vision { visible, range: 8, recompute }
}

fn pts(list: &[(i32, i32)]) -> Vec<Position> {
    list.iter().map(|&(x, y)| Position::new(x, y)).collect()
}

#[test]
fn visibility_filters_and_clears_the_mark() {
    let mut w = level();
    let p = w.spawn(Position::new(4, 4));
    w.set_player(p);
    w.set_vision(p, vision(true, Vec::new()));
    let fov = vec![pts(&[(4, 4), (0, 4), (5, 4), (19, 3), (-1, 2), (5, 5)])];
    VisibilitySystem {}.run(&mut w, &fov);
    let v = w.visions[p].as_ref().unwrap();
    assert!(!v.recompute);
    assert_eq!(v.range, 8);
    assert_eq!(v.visible, pts(&[(4, 4), (5, 4), (5, 5)]));
    let lit: Vec<usize> = (0..w.map.visible.len()).filter(|i| w.map.visible[*i]).collect();
    let mut expected = vec![w.map.xy_idx(4, 4), w.map.xy_idx(5, 4), w.map.xy_idx(5, 5)];
    expected.sort();
    assert_eq!(lit, expected);
    assert_eq!(
        (0..w.map.explored.len()).filter(|i| w.map.explored[*i]).collect::<Vec<usize>>(),
        expected
    );
}

#[test]
fn explored_tiles_stay_explored() {
    let mut w = level();
    let p = w.spawn(Position::new(4, 4));
    w.set_player(p);
    w.set_vision(p, vision(true, Vec::new()));
    VisibilitySystem {}.run(&mut w, &vec![pts(&[(3, 3), (4, 4)])]);
    let first = w.map.explored.clone();
    w.visions[p].as_mut().unwrap().recompute = true;
    VisibilitySystem {}.run(&mut w, &vec![pts(&[(8, 6)])]);
    for i in 0..first.len() {
        if first[i] {
            assert!(w.map.explored[i]);
        }
    }
    assert!(w.map.explored[w.map.xy_idx(8, 6)]);
    assert!(w.map.visible[w.map.xy_idx(8, 6)]);
    assert!(!w.map.visible[w.map.xy_idx(3, 3)]);
    assert_eq!(w.map.visible.iter().filter(|v| **v).count(), 1);
    assert_eq!(w.map.explored.iter().filter(|v| **v).count(), 3);
}

#[test]
fn fresh_view_is_left_alone() {
    let mut w = level();
    let p = w.spawn(Position::new(4, 4));
    w.set_player(p);
    w.set_vision(p, vision(false, pts(&[(4, 4)])));
    VisibilitySystem {}.run(&mut w, &vec![pts(&[(5, 5)])]);
    assert_eq!(w.visions[p].as_ref().unwrap().visible, pts(&[(4, 4)]));
    assert!(w.map.explored.iter().all(|e| !*e));
}

#[test]
fn monsters_do_not_touch_exploration() {
    let mut w = level();
    let m = w.spawn(Position::new(6, 6));
    w.set_monster(m);
    w.set_vision(m, vision(true, Vec::new()));
    VisibilitySystem {}.run(&mut w, &vec![pts(&[(6, 6), (7, 6)])]);
    assert_eq!(w.visions[m].as_ref().unwrap().visible, pts(&[(6, 6), (7, 6)]));
    assert!(w.map.explored.iter().all(|e| !*e));
    assert!(w.map.visible.iter().all(|v| !*v));
}

/// A player at (3, 4) and a monster at `at` that sees `visible`.
fn chase_setup(at: (i32, i32), visible: Vec<Position>) -> (World, usize, usize) {
    let mut w = level();
    let p = w.spawn(Position::new(3, 4));
    w.set_player(p);
    w.set_fighter(p, Fighter { hp: 30, max_hp: 30, attack: 5, defense: 2 });
    let m = w.spawn(Position::new(at.0, at.1));
    w.set_monster(m);
    w.set_vision(m, vision(false, visible));
    MapManagementSystem {}.run(&mut w);
    (w, p, m)
}

#[test]
fn adjacent_monster_attacks() {
    let (mut w, _p, m) = chase_setup((4, 5), pts(&[(3, 4), (4, 5)]));
    assert!(!w.wants_path(m, w.player_pos));
    let mut rng = RandomNumberGenerator::seeded(7);
    let actions = MonsterAISystem {}.run(&mut w, &vec![Vec::new(), Vec::new()], &mut rng);
    assert_eq!(actions, vec![MonsterAction::Hold, MonsterAction::Attack]);
    assert_eq!(w.positions[m], Position::new(4, 5));
}

#[test]
fn distant_monster_steps_along_the_path() {
    let (mut w, p, m) = chase_setup((7, 4), pts(&[(3, 4), (7, 4)]));
    assert!(w.wants_path(m, w.player_pos));
    let path = vec![w.map.xy_idx(7, 4), w.map.xy_idx(6, 4), w.map.xy_idx(5, 4), w.map.xy_idx(4, 4), w.map.xy_idx(3, 4)];
    let mut rng = RandomNumberGenerator::seeded(7);
    let actions = MonsterAISystem {}.run(&mut w, &vec![Vec::new(), path], &mut rng);
    assert_eq!(actions[m], MonsterAction::Chase(MoveOutcome::Moved));
    assert_eq!(w.positions[m], Position::new(6, 4));
    assert!(w.visions[m].as_ref().unwrap().recompute);
    assert_eq!(w.positions[p], Position::new(3, 4));
    assert_eq!(w.player_pos, Position::new(3, 4));
}

#[test]
fn chase_without_path_holds() {
    let (mut w, _p, m) = chase_setup((7, 4), pts(&[(3, 4)]));
    let mut rng = RandomNumberGenerator::seeded(7);
    let one_node = vec![w.map.xy_idx(7, 4)];
    let actions = MonsterAISystem {}.run(&mut w, &vec![Vec::new(), one_node], &mut rng);
    assert_eq!(actions[m], MonsterAction::Hold);
    assert_eq!(w.positions[m], Position::new(7, 4));
    assert!(!w.visions[m].as_ref().unwrap().recompute);
}

#[test]
fn monster_that_cannot_see_wanders_to_an_exit() {
    let (mut w, _p, m) = chase_setup((7, 6), pts(&[(7, 6)]));
    let origin = w.map.xy_idx(7, 6);
    let exits: Vec<usize> = w.map.available_exits(origin).iter().map(|e| e.0).collect();
    assert_eq!(exits.len(), 8);
    let mut rng = RandomNumberGenerator::seeded(11);
    let actions = MonsterAISystem {}.run(&mut w, &vec![Vec::new(), Vec::new()], &mut rng);
    assert_eq!(actions[m], MonsterAction::Wander(MoveOutcome::Moved));
    let now = w.positions[m];
    assert!(exits.contains(&w.map.xy_idx(now.x, now.y)));
    assert_ne!(now, Position::new(7, 6));
    assert!(w.visions[m].as_ref().unwrap().recompute);
}

#[test]
fn wandering_visits_several_exits() {
    let mut seen: Vec<Position> = Vec::new();
    for seed in 0..30u64 {
        let (mut w, _p, m) = chase_setup((7, 6), Vec::new());
        let mut rng = RandomNumberGenerator::seeded(seed);
        MonsterAISystem {}.run(&mut w, &vec![Vec::new(), Vec::new()], &mut rng);
        if !seen.contains(&w.positions[m]) {
            seen.push(w.positions[m]);
        }
    }
    assert!(seen.len() >= 3);
}

#[test]
fn enclosed_monster_holds() {
    let mut m = GameMap::empty(20, 15);
    m.carve_room(&Room::new(5, 5, 0, 0));
    m.compute_blocked();
    let mut w = World::new(m);
    let id = w.spawn(Position::new(5, 5));
    w.set_monster(id);
    let mut rng = RandomNumberGenerator::seeded(3);
    let actions = MonsterAISystem {}.run(&mut w, &vec![Vec::new()], &mut rng);
    assert_eq!(actions, vec![MonsterAction::Hold]);
    assert_eq!(w.positions[id], Position::new(5, 5));
}

#[test]
fn chase_step_must_be_an_exit_of_the_monster_tile() {
    let (mut w, _p, m) = chase_setup((7, 4), pts(&[(3, 4)]));
    let mut rng = RandomNumberGenerator::seeded(7);
    let jump = vec![w.map.xy_idx(7, 4), w.map.xy_idx(3, 5), w.map.xy_idx(3, 4)];
    let actions = MonsterAISystem {}.run(&mut w, &vec![Vec::new(), jump], &mut rng);
    assert_eq!(actions[m], MonsterAction::Hold);
    assert_eq!(w.positions[m], Position::new(7, 4));

    let elsewhere = vec![w.map.xy_idx(5, 5), w.map.xy_idx(6, 4), w.map.xy_idx(3, 4)];
    let actions = MonsterAISystem {}.run(&mut w, &vec![Vec::new(), elsewhere], &mut rng);
    assert_eq!(actions[m], MonsterAction::Hold);
    assert_eq!(w.positions[m], Position::new(7, 4));
}

#[test]
fn step_to_moves_to_the_chosen_exit() {
    let (mut w, _p, m) = chase_setup((7, 6), Vec::new());
    let exits = w.map.available_exits(w.map.xy_idx(7, 6));
    let (t, _) = exits[4];
    assert_eq!(w.step_to(m, t), MoveOutcome::Moved);
    assert_eq!(w.positions[m], Position::new(8, 7));
    assert!(w.visions[m].as_ref().unwrap().recompute);
}
