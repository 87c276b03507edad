use roguelike::Position;

#[test]
fn position_arithmetic() {
    let a = Position::new(3, -2);
    let b = Position::from((1, 5));
    assert_eq!(b, Position { x: 1, y: 5 });
    assert_eq!(a + b, Position::new(4, 3));
    assert_eq!(a - b, Position::new(2, -7));
    assert_eq!(a * 3, Position::new(9, -6));
    assert_eq!(a * b, 3 - 10);
}
