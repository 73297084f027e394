use miv::point::{Direction, Point};

#[test]
fn with_direction_moves_one_step() {
    let p = Point::new(3, 4);
    assert_eq!(p.with_direction(Direction::Up), Point::new(3, 3));
    assert_eq!(p.with_direction(Direction::Down), Point::new(3, 5));
    assert_eq!(p.with_direction(Direction::Left), Point::new(2, 4));
    assert_eq!(p.with_direction(Direction::Right), Point::new(4, 4));
    assert_eq!(p.with_direction(Direction::BeginningOfLine), Point::new(0, 4));
    assert_eq!(p.with_direction(Direction::BeginningOfFile), Point::new(0, 0));
    assert_eq!(p.with_direction(Direction::EndOfLine), p);
    assert_eq!(p.with_direction(Direction::EndOfFile), p);
}

#[test]
fn with_direction_saturates_at_origin() {
    let p = Point::new(0, 0);
    assert_eq!(p.with_direction(Direction::Up), Point::new(0, 0));
    assert_eq!(p.with_direction(Direction::Left), Point::new(0, 0));
}

#[test]
fn offset_clamps_negative_coordinates() {
    let p = Point::new(2, 3);
    assert_eq!(p.offset(-5, 1), Point::new(0, 4));
    assert_eq!(p.offset(1, -5), Point::new(3, 0));
}

#[test]
fn clamp_by_bounds_both_axes() {
    let mut p = Point::new(7, 9);
    p.clamp_by(5, 100);
    assert_eq!(p, Point::new(5, 9));
    p.clamp_by(100, 2);
    assert_eq!(p, Point::new(5, 2));
}
