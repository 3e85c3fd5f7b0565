use flou::ast::Direction;
use flou::pos::{IndexPos, PaddedPos, PixelPos};

fn pos(x: i64, y: i64) -> IndexPos {
    IndexPos { x, y }
}

fn padded(x: i64, y: i64) -> PaddedPos {
    PaddedPos { x, y }
}

fn pix(x: i64, y: i64) -> PixelPos {
    PixelPos { x, y }
}

#[test]
fn index_and_padded_space_convert_explicitly() {
    assert_eq!(PaddedPos::of_index(pos(0, 0)), padded(1, 1));
    assert_eq!(PaddedPos::of_index(pos(2, 3)), padded(5, 7));
    assert_eq!(padded(5, 7).to_index(), pos(2, 3));
}

#[test]
fn padded_alignment_and_snapping() {
    assert!(padded(3, 5).grid_aligned());
    assert!(!padded(2, 5).grid_aligned());
    assert!(padded(2, 5).grid_y_aligned());
    assert_eq!(padded(4, 7).snap_to_grid(), padded(3, 7));
    assert_eq!(padded(0, 0).snap_to_grid(), padded(-1, -1));
}

#[test]
fn padded_vector_helpers() {
    assert_eq!(padded(4, 1).minus(padded(1, 1)), padded(3, 0));
    assert_eq!(padded(3, 0).normalize(), padded(1, 0));
    assert_eq!(padded(-2, 0).normalize(), padded(-1, 0));
    assert_eq!(padded(-2, 5).max_scalar(0), padded(0, 5));
    assert_eq!(PaddedPos::taxicab(padded(1, 1), padded(4, 3)), 5);
    assert_eq!(padded(1, 1).step(Direction::East), padded(2, 1));
}

#[test]
fn straight_lines_have_a_direction() {
    assert_eq!(IndexPos::straight_line(pos(0, 0), pos(3, 0)), Some(Direction::East));
    assert_eq!(IndexPos::straight_line(pos(3, 0), pos(0, 0)), Some(Direction::West));
    assert_eq!(IndexPos::straight_line(pos(1, 1), pos(1, 4)), Some(Direction::South));
    assert_eq!(IndexPos::straight_line(pos(1, 4), pos(1, 1)), Some(Direction::North));
    assert_eq!(IndexPos::straight_line(pos(0, 0), pos(0, 0)), None);
    assert_eq!(IndexPos::straight_line(pos(0, 0), pos(1, 2)), None);
}

#[test]
fn pixel_arithmetic() {
    assert_eq!(pix(1, 2).plus(pix(10, 20)), pix(11, 22));
    assert_eq!(pix(11, 22).minus(pix(1, 2)), pix(10, 20));
    assert_eq!(pix(3, 4).times(pix(5, 6)), pix(15, 24));
    assert_eq!(pix(3, 4).scale(10), pix(30, 40));
    assert_eq!(pix(10, 21).half(), pix(5, 10));
    assert_eq!(PixelPos::middle(pix(0, 0), pix(10, 30)), pix(5, 15));
    assert_eq!(PixelPos::of_index(pos(2, 3)), pix(2, 3));
    assert_eq!(PixelPos::of_padded(padded(5, 7)), pix(5, 7));
    assert_eq!(PixelPos::of_direction(Direction::North), pix(0, -1));
}

#[test]
fn directions_turn_and_reverse() {
    assert_eq!(Direction::North.reverse(), Direction::South);
    assert_eq!(Direction::West.reverse(), Direction::East);
    assert_eq!(Direction::North.rotate_clockwise(), Direction::East);
    assert_eq!(Direction::East.rotate_clockwise(), Direction::South);
    assert_eq!(Direction::North.rotate_counter_clockwise(), Direction::West);
    assert_eq!(Direction::West.rotate_counter_clockwise(), Direction::South);
    for d in [Direction::North, Direction::South, Direction::West, Direction::East] {
        assert_eq!(d.reverse().reverse(), d);
        assert_eq!(d.rotate_clockwise().rotate_counter_clockwise(), d);
    }
}
