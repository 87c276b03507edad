use roguelike::Room;

#[test]
fn room_new_spans_width_and_height() {
    let r = Room::new(3, 4, 6, 8);
    assert_eq!((r.x0, r.y0, r.x1, r.y1), (3, 4, 9, 12));
}

#[test]
fn rooms_sharing_an_edge_intersect() {
    let a = Room::new(1, 1, 5, 5);
    let b = Room::new(6, 1, 5, 5);
    assert!(a.intersects(&b));
    assert!(b.intersects(&a));
}

#[test]
fn separated_rooms_do_not_intersect() {
    let a = Room::new(1, 1, 5, 5);
    let b = Room::new(7, 1, 5, 5);
    let c = Room::new(1, 7, 5, 5);
    assert!(!a.intersects(&b));
    assert!(!a.intersects(&c));
}

#[test]
fn nested_rooms_intersect() {
    let outer = Room::new(1, 1, 10, 10);
    let inner = Room::new(3, 3, 2, 2);
    assert!(outer.intersects(&inner));
    assert!(inner.intersects(&outer));
}

#[test]
fn center_rounds_down_for_positive_coordinates() {
    assert_eq!(Room::new(1, 1, 6, 6).center(), (4, 4));
    assert_eq!(Room::new(2, 3, 7, 8).center(), (5, 7));
}

#[test]
fn center_rounds_toward_zero_for_negative_coordinates() {
    assert_eq!(Room::new(-2, -2, 1, 1).center(), (-1, -1));
    assert_eq!(Room::new(-4, 0, 2, 1).center(), (-3, 0));
}
