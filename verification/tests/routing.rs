use flou::ast::{Direction, Identifier};
use flou::grid::GridIndex;
use flou::pos::{IndexPos, PaddedPos};
use flou::router::get_path;

fn pos(x: i64, y: i64) -> IndexPos {
    IndexPos { x, y }
}

fn padded(x: i64, y: i64) -> PaddedPos {
    PaddedPos { x, y }
}

fn id(s: &str) -> Identifier {
    Identifier(String::from(s))
}

/// A row of four cells holding `node, empty, empty, node`.
fn sparse_row() -> GridIndex {
    GridIndex {
        size: pos(4, 1),
        position_to_id: vec![(pos(0, 0), id("a")), (pos(3, 0), id("b"))],
    }
}

/// A row of three adjacent nodes.
fn full_row() -> GridIndex {
    GridIndex {
        size: pos(3, 1),
        position_to_id: vec![(pos(0, 0), id("a")), (pos(1, 0), id("m")), (pos(2, 0), id("b"))],
    }
}

#[test]
fn walk_skips_empty_cells() {
    let g = sparse_row();
    assert_eq!(g.walk(pos(0, 0), Direction::East), Some(pos(3, 0)));
}

#[test]
fn walk_stops_at_the_boundary() {
    let g = sparse_row();
    assert_eq!(g.walk(pos(3, 0), Direction::East), None);
    assert_eq!(g.walk(pos(0, 0), Direction::North), None);
}

#[test]
fn walk_stops_at_the_first_node() {
    let g = full_row();
    assert_eq!(g.walk(pos(0, 0), Direction::East), Some(pos(1, 0)));
}

#[test]
fn straight_route_has_no_corners() {
    // Two nodes in one row with only empty cells between them: the east to
    // west connection is the minimal straight path.
    let g = sparse_row();
    let path = get_path(&g, (pos(0, 0), Direction::East), (pos(3, 0), Direction::West));
    assert_eq!(path, vec![padded(1, 1), padded(7, 1)]);
}

#[test]
fn adjacent_facing_edges_join_directly() {
    let g = full_row();
    let path = get_path(&g, (pos(0, 0), Direction::East), (pos(1, 0), Direction::West));
    assert_eq!(path, vec![padded(1, 1), padded(3, 1)]);
}

#[test]
fn obstructed_route_avoids_the_node_between() {
    // The middle cell is occupied, so the connection may not run straight
    // through it: no waypoint lands on any occupied cell.
    let g = full_row();
    let path = get_path(&g, (pos(0, 0), Direction::East), (pos(2, 0), Direction::West));
    assert!(path.len() > 2, "an obstructed route needs corner waypoints");
    let cells = [padded(1, 1), padded(3, 1), padded(5, 1)];
    for p in path.iter().skip(1).take(path.len() - 2) {
        for c in cells.iter() {
            assert_ne!(p, c, "an interior waypoint sits on an occupied cell");
        }
    }
    assert_eq!(path[0], padded(1, 1));
    assert_eq!(path[path.len() - 1], padded(5, 1));
}

#[test]
fn north_to_north_neighbours_route_over_the_top() {
    let g = full_row();
    let path = get_path(&g, (pos(0, 0), Direction::North), (pos(1, 0), Direction::North));
    assert_eq!(path[0], padded(1, 1));
    assert_eq!(path[path.len() - 1], padded(3, 1));
    for p in path.iter().skip(1).take(path.len() - 2) {
        assert!(
            p.x % 2 == 0 || p.y % 2 == 0,
            "an interior waypoint must touch a lane on some axis"
        );
    }
}

#[test]
fn self_loop_routes_outside_the_cell() {
    let g = full_row();
    let path = get_path(&g, (pos(0, 0), Direction::East), (pos(0, 0), Direction::West));
    assert_eq!(path[0], padded(1, 1));
    assert_eq!(path[path.len() - 1], padded(1, 1));
    assert!(path.len() > 2);
    for p in path.iter().skip(1).take(path.len() - 2) {
        assert!(p.x % 2 == 0 || p.y % 2 == 0);
    }
}

#[test]
fn router_is_deterministic() {
    // Identical arguments always give the identical waypoint list.
    let g = full_row();
    let first = get_path(&g, (pos(0, 0), Direction::East), (pos(2, 0), Direction::West));
    let second = get_path(&g, (pos(0, 0), Direction::East), (pos(2, 0), Direction::West));
    assert_eq!(first, second);
    let third = get_path(&g, (pos(2, 0), Direction::North), (pos(0, 0), Direction::South));
    let fourth = get_path(&g, (pos(2, 0), Direction::North), (pos(0, 0), Direction::South));
    assert_eq!(third, fourth);
}

#[test]
fn corner_route_turns_once_on_a_free_corner() {
    // Two nodes on different rows and columns with a free lane corner.
    let g = GridIndex {
        size: pos(2, 2),
        position_to_id: vec![(pos(0, 0), id("a")), (pos(1, 1), id("b"))],
    };
    let path = get_path(&g, (pos(0, 0), Direction::South), (pos(1, 1), Direction::West));
    assert_eq!(
        path,
        vec![padded(1, 1), padded(1, 2), padded(2, 2), padded(2, 3), padded(3, 3)]
    );
}
