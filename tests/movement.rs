use roguelike::{
    try_move_player, Fighter, GameMap, MapManagementSystem, MoveOutcome, Position, Room, TileType,
    TurnState, Vision, World,
};

fn vision() -> Vision {
    Vision { visible: Vec::new(), range: 8, recompute: false }
}

/// A 20 by 15 level with one room spanning (2, 2) to (10, 8).
fn level() -> World {
    let mut m = GameMap::empty(20, 15);
    m.carve_room(&Room::new(2, 2, 8, 6));
    m.compute_blocked();
    World::new(m)
}

fn rebuild(w: &mut World) {
    MapManagementSystem {}.run(w);
}

fn fighter() -> Fighter {
    Fighter { hp: 10, max_hp: 10, attack: 3, defense: 1 }
}

#[test]
fn player_moves_onto_free_floor() {
    let mut w = level();
    let p = w.spawn(Position::new(5, 5));
    assert!(w.set_player(p));
    w.set_vision(p, vision());
    rebuild(&mut w);
    assert_eq!(w.attempt_move(p, 1, 0), MoveOutcome::Moved);
    assert_eq!(w.positions[p], Position::new(6, 5));
    assert_eq!(w.player_pos, Position::new(6, 5));
    assert!(w.visions[p].as_ref().unwrap().recompute);
}

#[test]
fn move_into_wall_is_blocked_and_changes_nothing() {
    let mut w = level();
    let p = w.spawn(Position::new(2, 2));
    w.set_player(p);
    w.set_vision(p, vision());
    rebuild(&mut w);
    assert_eq!(w.attempt_move(p, -1, 0), MoveOutcome::Blocked);
    assert_eq!(w.attempt_move(p, 0, -1), MoveOutcome::Blocked);
    assert_eq!(w.attempt_move(p, -1, -1), MoveOutcome::Blocked);
    assert_eq!(w.positions[p], Position::new(2, 2));
    assert_eq!(w.player_pos, Position::new(2, 2));
    assert!(!w.visions[p].as_ref().unwrap().recompute);
}

#[test]
fn move_off_the_grid_is_blocked() {
    let mut w = level();
    let p = w.spawn(Position::new(2, 2));
    w.set_player(p);
    w.set_vision(p, vision());
    rebuild(&mut w);
    assert_eq!(w.attempt_move(p, -5, 0), MoveOutcome::Blocked);
    assert_eq!(w.attempt_move(p, i32::MIN, i32::MAX), MoveOutcome::Blocked);
    assert_eq!(w.attempt_move(p, 30, 30), MoveOutcome::Blocked);
    assert_eq!(w.positions[p], Position::new(2, 2));
    assert_eq!(w.player_pos, Position::new(2, 2));
    assert!(!w.visions[p].as_ref().unwrap().recompute);
}

#[test]
fn outer_ring_is_never_entered_even_when_floor() {
    let mut m = GameMap::empty(20, 15);
    m.carve_room(&Room::new(0, 0, 5, 5));
    m.compute_blocked();
    let mut w = World::new(m);
    let a = w.spawn(Position::new(1, 1));
    rebuild(&mut w);
    assert_eq!(w.attempt_move(a, -1, 0), MoveOutcome::Blocked);
    assert_eq!(w.positions[a], Position::new(1, 1));
}

#[test]
fn fighter_on_target_is_attacked_in_place() {
    let mut w = level();
    let p = w.spawn(Position::new(5, 5));
    w.set_player(p);
    w.set_vision(p, vision());
    let m = w.spawn(Position::new(6, 5));
    w.set_fighter(m, fighter());
    rebuild(&mut w);
    assert_eq!(w.attempt_move(p, 1, 0), MoveOutcome::Attacked(m));
    assert_eq!(w.positions[p], Position::new(5, 5));
    assert!(!w.visions[p].as_ref().unwrap().recompute);
}

#[test]
fn attack_preempts_blocking() {
    let mut w = level();
    let p = w.spawn(Position::new(5, 5));
    let m = w.spawn(Position::new(5, 6));
    w.set_fighter(m, fighter());
    w.set_blocking(m);
    rebuild(&mut w);
    assert_eq!(w.attempt_move(p, 0, 1), MoveOutcome::Attacked(m));
}

#[test]
fn first_listed_fighter_is_the_target() {
    let mut w = level();
    let p = w.spawn(Position::new(5, 5));
    let bystander = w.spawn(Position::new(4, 4));
    let first = w.spawn(Position::new(4, 4));
    let second = w.spawn(Position::new(4, 4));
    w.set_fighter(first, fighter());
    w.set_fighter(second, fighter());
    rebuild(&mut w);
    assert_eq!(w.map.occupants_at(4, 4), &vec![bystander, first, second]);
    assert_eq!(w.attempt_move(p, -1, -1), MoveOutcome::Attacked(first));
}

#[test]
fn blocking_actor_without_stats_blocks() {
    let mut w = level();
    let p = w.spawn(Position::new(5, 5));
    let crate_actor = w.spawn(Position::new(6, 6));
    w.set_blocking(crate_actor);
    rebuild(&mut w);
    assert_eq!(w.attempt_move(p, 1, 1), MoveOutcome::Blocked);
    assert_eq!(w.positions[p], Position::new(5, 5));
}

#[test]
fn non_blocking_actor_can_be_shared() {
    let mut w = level();
    let p = w.spawn(Position::new(5, 5));
    let _other = w.spawn(Position::new(5, 4));
    rebuild(&mut w);
    assert_eq!(w.attempt_move(p, 0, -1), MoveOutcome::Moved);
    assert_eq!(w.positions[p], Position::new(5, 4));
}

#[test]
fn occupancy_is_stale_until_rebuilt() {
    let mut w = level();
    let a = w.spawn(Position::new(5, 5));
    let b = w.spawn(Position::new(7, 5));
    w.set_blocking(a);
    rebuild(&mut w);
    assert_eq!(w.attempt_move(a, 1, 0), MoveOutcome::Moved);
    // The tile that `a` left still reads as blocked until the next rebuild.
    assert_eq!(w.attempt_move(b, -2, 0), MoveOutcome::Blocked);
    rebuild(&mut w);
    assert_eq!(w.attempt_move(b, -2, 0), MoveOutcome::Moved);
}

#[test]
fn try_move_player_reports_turns() {
    let mut w = level();
    let p = w.spawn(Position::new(3, 3));
    w.set_player(p);
    w.set_vision(p, vision());
    let m = w.spawn(Position::new(5, 3));
    w.set_fighter(m, fighter());
    rebuild(&mut w);
    assert_eq!(try_move_player(-1, 0, &mut w), TurnState::Running);
    assert_eq!(w.player_pos, Position::new(2, 3));
    assert_eq!(try_move_player(-1, 0, &mut w), TurnState::Paused);
    assert_eq!(w.player_pos, Position::new(2, 3));
    rebuild(&mut w);
    assert_eq!(try_move_player(1, 0, &mut w), TurnState::Running);
    assert_eq!(try_move_player(1, 0, &mut w), TurnState::Running);
    assert_eq!(w.positions[p], Position::new(4, 3));
    rebuild(&mut w);
    assert_eq!(try_move_player(1, 0, &mut w), TurnState::Running);
    assert_eq!(w.positions[p], Position::new(4, 3));
}

#[test]
fn try_move_player_without_player_pauses() {
    let mut w = level();
    let a = w.spawn(Position::new(3, 3));
    rebuild(&mut w);
    assert_eq!(try_move_player(1, 0, &mut w), TurnState::Paused);
    assert_eq!(w.positions[a], Position::new(3, 3));
}

#[test]
fn only_one_player() {
    let mut w = level();
    let a = w.spawn(Position::new(3, 3));
    let b = w.spawn(Position::new(4, 4));
    assert!(w.set_player(a));
    assert!(w.set_player(a));
    assert!(!w.set_player(b));
    assert_eq!(w.find_player(), Some(a));
    assert_eq!(w.player_pos, Position::new(3, 3));
}

#[test]
fn rebuild_marks_blockers_and_lists_occupants() {
    let mut w = level();
    let a = w.spawn(Position::new(3, 3));
    let b = w.spawn(Position::new(4, 4));
    let c = w.spawn(Position::new(4, 4));
    w.set_blocking(a);
    rebuild(&mut w);
    assert!(w.map.is_blocked(3, 3));
    assert!(!w.map.is_blocked(4, 4));
    assert!(w.map.is_blocked(0, 0));
    assert_eq!(w.map.occupants_at(3, 3), &vec![a]);
    assert_eq!(w.map.occupants_at(4, 4), &vec![b, c]);
    assert!(w.map.occupants_at(5, 5).is_empty());
    for i in 0..w.map.tiles.len() {
        let (x, y) = w.map.idx_xy(i);
        let expected = w.map.tiles[i] == TileType::Wall || (x, y) == (3, 3);
        assert_eq!(w.map.blocked[i], expected);
    }
}

#[test]
fn rebuild_forgets_previous_positions() {
    let mut w = level();
    let a = w.spawn(Position::new(3, 3));
    w.set_blocking(a);
    rebuild(&mut w);
    assert_eq!(w.attempt_move(a, 1, 0), MoveOutcome::Moved);
    rebuild(&mut w);
    assert!(!w.map.is_blocked(3, 3));
    assert!(w.map.is_blocked(4, 3));
    assert!(w.map.occupants_at(3, 3).is_empty());
    assert_eq!(w.map.occupants_at(4, 3), &vec![a]);
}
