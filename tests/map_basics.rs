use roguelike::{GameMap, Room, TileType, DIAGONAL_COST, ORTHOGONAL_COST};

#[test]
fn tile_walkability() {
    assert!(TileType::Floor.is_walkable());
    assert!(!TileType::Wall.is_walkable());
}

#[test]
fn empty_map_is_all_wall() {
    let m = GameMap::empty(20, 15);
    assert_eq!(m.tiles.len(), 300);
    assert!(m.tiles.iter().all(|t| *t == TileType::Wall));
    assert!(m.rooms.is_empty());
    assert!(m.explored.iter().all(|e| !*e));
    assert!(m.visible.iter().all(|v| !*v));
    assert!(m.blocked.iter().all(|b| !*b));
    assert!(m.tile_entities.iter().all(|o| o.is_empty()));
}

#[test]
fn index_codec_is_row_major() {
    let m = GameMap::empty(20, 15);
    assert_eq!(m.xy_idx(0, 0), 0);
    assert_eq!(m.xy_idx(5, 0), 5);
    assert_eq!(m.xy_idx(3, 2), 43);
    assert_eq!(m.xy_idx(19, 14), 299);
    assert_eq!(m.idx_xy(43), (3, 2));
    assert_eq!(m.idx_xy(299), (19, 14));
    for idx in 0..300usize {
        let (x, y) = m.idx_xy(idx);
        assert_eq!(m.xy_idx(x, y), idx);
    }
}

#[test]
fn boundary_predicate_excludes_outer_ring() {
    let m = GameMap::empty(20, 15);
    assert!(m.in_bounds(1, 1));
    assert!(m.in_bounds(18, 13));
    assert!(!m.in_bounds(0, 5));
    assert!(!m.in_bounds(19, 5));
    assert!(!m.in_bounds(5, 0));
    assert!(!m.in_bounds(5, 14));
    assert!(!m.in_bounds(-1, 5));
    assert!(!m.in_bounds(5, 100));
}

#[test]
fn carve_room_turns_rectangle_to_floor() {
    let mut m = GameMap::empty(20, 15);
    m.carve_room(&Room::new(2, 3, 4, 2));
    for y in 0..15 {
        for x in 0..20 {
            let inside = (2..=6).contains(&x) && (3..=5).contains(&y);
            let expected = if inside { TileType::Floor } else { TileType::Wall };
            assert_eq!(m.tiles[m.xy_idx(x, y)], expected, "tile ({}, {})", x, y);
        }
    }
}

#[test]
fn corridors_are_inclusive_in_either_direction() {
    let mut m = GameMap::empty(20, 15);
    m.carve_corridor_horizontal(9, 4, 7);
    m.carve_corridor_vertical(2, 5, 12);
    let floors: Vec<(i32, i32)> = (0..300usize)
        .filter(|i| m.tiles[*i] == TileType::Floor)
        .map(|i| m.idx_xy(i))
        .collect();
    let mut expected: Vec<(i32, i32)> = Vec::new();
    for y in 0..15 {
        for x in 0..20 {
            if (y == 7 && (4..=9).contains(&x)) || (x == 12 && (2..=5).contains(&y)) {
                expected.push((x, y));
            }
        }
    }
    assert_eq!(floors, expected);
}

#[test]
fn compute_blocked_follows_terrain() {
    let mut m = GameMap::empty(20, 15);
    m.carve_room(&Room::new(2, 2, 3, 3));
    m.compute_blocked();
    for i in 0..300usize {
        assert_eq!(m.blocked[i], m.tiles[i] == TileType::Wall);
    }
    assert!(m.is_blocked(0, 0));
    assert!(!m.is_blocked(3, 3));
}

#[test]
fn clear_entities_empties_every_tile() {
    let mut m = GameMap::empty(20, 15);
    m.tile_entities[5].push(1);
    m.tile_entities[42].push(2);
    m.tile_entities[42].push(3);
    m.clear_entities();
    assert!(m.tile_entities.iter().all(|o| o.is_empty()));
    assert!(m.occupants_at(2, 2).is_empty());
}

#[test]
fn walls_are_opaque_and_floors_are_not() {
    let mut m = GameMap::empty(20, 15);
    m.carve_room(&Room::new(2, 2, 3, 3));
    assert!(m.is_opaque(m.xy_idx(1, 1)));
    assert!(!m.is_opaque(m.xy_idx(3, 3)));
}

#[test]
fn open_tile_has_eight_exits_with_costs() {
    let mut m = GameMap::empty(20, 15);
    m.carve_room(&Room::new(2, 2, 6, 6));
    m.compute_blocked();
    let origin = m.xy_idx(5, 5);
    let exits = m.available_exits(origin);
    let expected = vec![
        (m.xy_idx(6, 5), ORTHOGONAL_COST),
        (m.xy_idx(4, 5), ORTHOGONAL_COST),
        (m.xy_idx(5, 6), ORTHOGONAL_COST),
        (m.xy_idx(5, 4), ORTHOGONAL_COST),
        (m.xy_idx(6, 6), DIAGONAL_COST),
        (m.xy_idx(4, 4), DIAGONAL_COST),
        (m.xy_idx(4, 6), DIAGONAL_COST),
        (m.xy_idx(6, 4), DIAGONAL_COST),
    ];
    assert_eq!(exits, expected);
    assert_eq!(ORTHOGONAL_COST, 10000);
    assert_eq!(DIAGONAL_COST, 14142);
}

#[test]
fn corner_tile_exits_skip_walls() {
    let mut m = GameMap::empty(20, 15);
    m.carve_room(&Room::new(2, 2, 6, 6));
    m.compute_blocked();
    let exits = m.available_exits(m.xy_idx(2, 2));
    let expected = vec![
        (m.xy_idx(3, 2), ORTHOGONAL_COST),
        (m.xy_idx(2, 3), ORTHOGONAL_COST),
        (m.xy_idx(3, 3), DIAGONAL_COST),
    ];
    assert_eq!(exits, expected);
}

#[test]
fn exits_never_reach_the_outer_ring() {
    let mut m = GameMap::empty(20, 15);
    m.compute_blocked();
    for b in m.blocked.iter_mut() {
        *b = false;
    }
    let exits = m.available_exits(m.xy_idx(1, 1));
    let tiles: Vec<(i32, i32)> = exits.iter().map(|e| m.idx_xy(e.0)).collect();
    assert_eq!(tiles, vec![(2, 1), (1, 2), (2, 2)]);
    assert!(m.available_exits(m.xy_idx(0, 0)).iter().all(|e| {
        let (x, y) = m.idx_xy(e.0);
        m.in_bounds(x, y)
    }));
}
