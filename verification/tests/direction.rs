use rustgames::direction::Direction;

#[test]
fn opposite_pairs() {
    let all = [
        Direction::Left,
        Direction::Right,
        Direction::Top,
        Direction::Bottom,
        Direction::TopLeft,
        Direction::TopRight,
        Direction::BottomLeft,
        Direction::BottomRight,
    ];
    assert_eq!(Direction::Left.opposite(), Direction::Right);
    assert_eq!(Direction::Top.opposite(), Direction::Bottom);
    assert_eq!(Direction::TopRight.opposite(), Direction::BottomLeft);
    assert_eq!(Direction::BottomRight.opposite(), Direction::TopLeft);
    for d in all {
        assert_eq!(d.opposite().opposite(), d);
        assert_ne!(d.opposite(), d);
    }
}
