use vivaldi::coordinate::{Coordinate, MIN_HEIGHT};
use vivaldi::vector::Dimension3;

fn with_height(height: i64) -> Coordinate<Dimension3> {
    Coordinate::new(Dimension3([0, 0, 0]), 0, height)
}

#[test]
fn height_floor_zero_stored() {
    assert_eq!(with_height(0).height(), MIN_HEIGHT);
}

#[test]
fn height_floor_negative_stored() {
    assert_eq!(with_height(-5_000_000_000).height(), MIN_HEIGHT);
}

#[test]
fn height_floor_below_minimum() {
    assert_eq!(with_height(MIN_HEIGHT - 1).height(), MIN_HEIGHT);
}

#[test]
fn height_at_minimum_reads_unchanged() {
    assert_eq!(with_height(MIN_HEIGHT).height(), MIN_HEIGHT);
}

#[test]
fn height_above_minimum_reads_unchanged() {
    assert_eq!(with_height(MIN_HEIGHT + 1).height(), MIN_HEIGHT + 1);
    assert_eq!(with_height(100_000_000).height(), 100_000_000);
}

#[test]
fn coordinate_accessors() {
    let c = Coordinate::new(Dimension3([1, 2, 3]), 42, 99_000_000);

    assert_eq!(*c.vector(), Dimension3([1, 2, 3]));
    assert_eq!(c.error(), 42);
    assert_eq!(c.height(), 99_000_000);
}
