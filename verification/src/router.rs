//! The orthogonal connector router: given the grid index and a resolved
//! connection, computes the polyline of padded-space waypoints from the exit
//! edge of one node to the entry edge of another, avoiding other nodes.
//!
//! The result is pinned to `route_spec`, a function of the arguments alone,
//! so two calls with identical inputs always return the identical waypoint
//! list; and no interior waypoint ever coincides with a grid cell.

use vstd::prelude::*;

use crate::ast::Direction;
use crate::grid::GridIndex;
use crate::pos::{IndexPos, PaddedPos, GRID_LIMIT};

verus! {

/// A coordinate axis of the grid.
#[derive(Clone, Copy, Debug, PartialEq, Eq, Structural)]
pub enum Axis {
    X,
    Y,
}

/// How many axes of a padded coordinate lie in a lane: `Zero` coincides
/// with a cell, `Two` is a pure lane intersection, `One` names the axis
/// still aligned with a cell row or column.
#[derive(Clone, Copy, Debug, PartialEq, Eq, Structural)]
pub enum FreeAxisCount {
    Zero,
    One(Axis),
    Two,
}

impl FreeAxisCount {
    /// Classifies a padded coordinate by the parity of its axes.
    pub open spec fn spec_from_pos(p: PaddedPos) -> FreeAxisCount {
        if p.spec_grid_x_aligned() {
            if p.spec_grid_y_aligned() {
                FreeAxisCount::Zero
            } else {
                FreeAxisCount::One(Axis::X)
            }
        } else {
            if p.spec_grid_y_aligned() {
                FreeAxisCount::One(Axis::Y)
            } else {
                FreeAxisCount::Two
            }
        }
    }

    pub fn from_pos(p: PaddedPos) -> (r: FreeAxisCount)
        requires
            p.x >= 0,
            p.y >= 0,
        ensures
            r == FreeAxisCount::spec_from_pos(p),
    {
        let xa = p.grid_x_aligned();
        let ya = p.grid_y_aligned();
        if xa {
            if ya {
                FreeAxisCount::Zero
            } else {
                FreeAxisCount::One(Axis::X)
            }
        } else {
            if ya {
                FreeAxisCount::One(Axis::Y)
            } else {
                FreeAxisCount::Two
            }
        }
    }

    /// The score a corner candidate is ranked by: more free axes is better.
    pub open spec fn spec_rank(self) -> int {
        match self {
            FreeAxisCount::Zero => 0,
            FreeAxisCount::One(_) => 1,
            FreeAxisCount::Two => 2,
        }
    }

    pub fn rank(&self) -> (r: u8)
        ensures
            r as int == self.spec_rank(),
    {
        match self {
            FreeAxisCount::Zero => 0,
            FreeAxisCount::One(_) => 1,
            FreeAxisCount::Two => 2,
        }
    }
}

/// The link point of a node edge: one lane-step out of the cell, in the
/// lane directly outside that edge.
pub open spec fn spec_link_point(pos: IndexPos, side: Direction) -> PaddedPos {
    PaddedPos::spec_of_index(pos).spec_step(side)
}

/// Computes the link point of a node edge.
pub fn link_point(pos: IndexPos, side: Direction) -> (r: PaddedPos)
    requires
        0 <= pos.x <= GRID_LIMIT,
        0 <= pos.y <= GRID_LIMIT,
    ensures
        r == spec_link_point(pos, side),
        0 <= r.x <= 2 * GRID_LIMIT + 2,
        0 <= r.y <= 2 * GRID_LIMIT + 2,
{
    PaddedPos::of_index(pos).step(side)
}

/// A link point is never cell-aligned on both axes: exactly one of its
/// coordinates is odd.
pub proof fn lemma_link_point_parity(pos: IndexPos, side: Direction)
    requires
        0 <= pos.x <= GRID_LIMIT,
        0 <= pos.y <= GRID_LIMIT,
    ensures
        spec_link_point(pos, side).spec_grid_x_aligned() <==> !spec_link_point(
            pos,
            side,
        ).spec_grid_y_aligned(),
{
    let lp = spec_link_point(pos, side);
    match side {
        Direction::North => {
            assert(lp.x == 2 * pos.x + 1 && lp.y == 2 * pos.y);
        },
        Direction::South => {
            assert(lp.x == 2 * pos.x + 1 && lp.y == 2 * pos.y + 2);
        },
        Direction::West => {
            assert(lp.x == 2 * pos.x && lp.y == 2 * pos.y + 1);
        },
        Direction::East => {
            assert(lp.x == 2 * pos.x + 2 && lp.y == 2 * pos.y + 1);
        },
    }
}

/// Whether a padded coordinate lies strictly between two collinear padded
/// coordinates, on their common segment.
pub open spec fn spec_between(p: PaddedPos, q: PaddedPos, r: PaddedPos) -> bool {
    ||| (p.x == q.x && r.x == p.x && (if p.y < q.y {
        p.y < r.y < q.y
    } else {
        q.y < r.y < p.y
    }))
    ||| (p.y == q.y && r.y == p.y && (if p.x < q.x {
        p.x < r.x < q.x
    } else {
        q.x < r.x < p.x
    }))
}

/// Whether the open segment between two collinear padded coordinates passes
/// through no occupied cell.
pub open spec fn spec_seg_clear(g: GridIndex, p: PaddedPos, q: PaddedPos) -> bool {
    forall|r: PaddedPos|
        spec_between(p, q, r) && (#[trigger] r.spec_grid_aligned()) ==> !g.spec_occupied(
            r.spec_to_index(),
        )
}

/// Checks that the open segment between two collinear padded coordinates
/// passes through no occupied cell.
pub fn seg_clear(g: &GridIndex, p: PaddedPos, q: PaddedPos) -> (r: bool)
    requires
        g.wf(),
        0 <= p.x <= 2 * GRID_LIMIT + 2,
        0 <= p.y <= 2 * GRID_LIMIT + 2,
        0 <= q.x <= 2 * GRID_LIMIT + 2,
        0 <= q.y <= 2 * GRID_LIMIT + 2,
        p.x == q.x || p.y == q.y,
    ensures
        r == spec_seg_clear(*g, p, q),
{
    if p.x == q.x {
        let lo: i64 = if p.y < q.y {
            p.y
        } else {
            q.y
        };
        let hi: i64 = if p.y < q.y {
            q.y
        } else {
            p.y
        };
        let mut t: i64 = lo + 1;
        while t < hi
            invariant
                g.wf(),
                lo + 1 <= t <= hi || t == lo + 1,
                lo + 1 <= t,
                -1 <= lo <= 2 * GRID_LIMIT + 2,
                0 <= hi <= 2 * GRID_LIMIT + 2,
                p.x == q.x,
                lo == (if p.y < q.y { p.y } else { q.y }),
                hi == (if p.y < q.y { q.y } else { p.y }),
                0 <= p.x <= 2 * GRID_LIMIT + 2,
                forall|r: PaddedPos|
                    spec_between(p, q, r) && r.y < t && (#[trigger] r.spec_grid_aligned())
                        ==> !g.spec_occupied(r.spec_to_index()),
            decreases hi - t,
        {
            let pt = PaddedPos { x: p.x, y: t };
            if pt.grid_aligned() {
                if g.occupied(pt.to_index()) {
                    assert(spec_between(p, q, pt));
                    return false;
                }
            }
            t += 1;
        }
        assert forall|r: PaddedPos|
            spec_between(p, q, r) && (#[trigger] r.spec_grid_aligned()) implies !g.spec_occupied(
            r.spec_to_index(),
        ) by {
            assert(r.y < t);
        }
        true
    } else {
        let lo: i64 = if p.x < q.x {
            p.x
        } else {
            q.x
        };
        let hi: i64 = if p.x < q.x {
            q.x
        } else {
            p.x
        };
        let mut t: i64 = lo + 1;
        while t < hi
            invariant
                g.wf(),
                lo + 1 <= t,
                -1 <= lo <= 2 * GRID_LIMIT + 2,
                0 <= hi <= 2 * GRID_LIMIT + 2,
                p.y == q.y,
                p.x != q.x,
                lo == (if p.x < q.x { p.x } else { q.x }),
                hi == (if p.x < q.x { q.x } else { p.x }),
                0 <= p.y <= 2 * GRID_LIMIT + 2,
                forall|r: PaddedPos|
                    spec_between(p, q, r) && r.x < t && (#[trigger] r.spec_grid_aligned())
                        ==> !g.spec_occupied(r.spec_to_index()),
            decreases hi - t,
        {
            let pt = PaddedPos { x: t, y: p.y };
            if pt.grid_aligned() {
                if g.occupied(pt.to_index()) {
                    assert(spec_between(p, q, pt));
                    return false;
                }
            }
            t += 1;
        }
        assert forall|r: PaddedPos|
            spec_between(p, q, r) && (#[trigger] r.spec_grid_aligned()) implies !g.spec_occupied(
            r.spec_to_index(),
        ) by {
            assert(r.x < t);
        }
        true
    }
}

/// Whether both legs of an L-shaped route through `corner` pass only
/// through lanes and empty cells.
pub open spec fn spec_legs_clear(g: GridIndex, a: PaddedPos, corner: PaddedPos, b: PaddedPos) -> bool {
    spec_seg_clear(g, a, corner) && spec_seg_clear(g, corner, b)
}

/// Whether the two link points can be joined by one straight segment: they
/// must share a line, and where that line runs along a cell row or column
/// the two cells must see each other directly through the grid walk.
pub open spec fn spec_can_straight(
    g: GridIndex,
    from: (IndexPos, Direction),
    to: (IndexPos, Direction),
) -> bool {
    let a = spec_link_point(from.0, from.1);
    let b = spec_link_point(to.0, to.1);
    match PaddedPos::spec_straight_line(a, b) {
        Some(dir) => {
            let on_cell_line = if dir == Direction::East || dir == Direction::West {
                a.spec_grid_y_aligned()
            } else {
                a.spec_grid_x_aligned()
            };
            if on_cell_line {
                IndexPos::spec_straight_line(from.0, to.0) is Some && g.spec_walk(from.0, dir)
                    == Some(to.0)
            } else {
                true
            }
        },
        None => false,
    }
}

/// Decides whether the straight-line shortcut applies.
pub fn can_draw_straight_line(
    grid: &GridIndex,
    from: (IndexPos, Direction),
    to: (IndexPos, Direction),
) -> (r: bool)
    requires
        grid.wf(),
        from.0.spec_in_bounds(grid.size),
        to.0.spec_in_bounds(grid.size),
    ensures
        r == spec_can_straight(*grid, from, to),
{
    let a = link_point(from.0, from.1);
    let b = link_point(to.0, to.1);
    match PaddedPos::straight_line(a, b) {
        Some(dir) => {
            let on_cell_line = match dir {
                Direction::East | Direction::West => a.grid_y_aligned(),
                Direction::North | Direction::South => a.grid_x_aligned(),
            };
            if on_cell_line {
                if IndexPos::straight_line(from.0, to.0).is_some() {
                    match grid.walk(from.0, dir) {
                        Some(dest) => dest == to.0,
                        None => false,
                    }
                } else {
                    false
                }
            } else {
                true
            }
        },
        None => false,
    }
}

/// The corner the router picks between two link points: of the two L-shape
/// candidates the one with more free axes wins; on a tie, a candidate whose
/// both legs are clear of nodes wins; otherwise the second candidate.
pub open spec fn spec_best_corner(g: GridIndex, a: PaddedPos, b: PaddedPos) -> PaddedPos {
    let c1 = PaddedPos { x: a.x, y: b.y };
    let c2 = PaddedPos { x: b.x, y: a.y };
    let r1 = FreeAxisCount::spec_from_pos(c1).spec_rank();
    let r2 = FreeAxisCount::spec_from_pos(c2).spec_rank();
    if r1 > r2 {
        c1
    } else if r2 > r1 {
        c2
    } else if spec_legs_clear(g, a, c1, b) && !spec_legs_clear(g, a, c2, b) {
        c1
    } else {
        c2
    }
}

/// Computes the router's corner choice between two link points.
pub fn get_best_corner(g: &GridIndex, a: PaddedPos, b: PaddedPos) -> (r: PaddedPos)
    requires
        g.wf(),
        0 <= a.x <= 2 * GRID_LIMIT + 2,
        0 <= a.y <= 2 * GRID_LIMIT + 2,
        0 <= b.x <= 2 * GRID_LIMIT + 2,
        0 <= b.y <= 2 * GRID_LIMIT + 2,
    ensures
        r == spec_best_corner(*g, a, b),
        r.x == a.x || r.x == b.x,
        r.y == a.y || r.y == b.y,
{
    let c1 = PaddedPos { x: a.x, y: b.y };
    let c2 = PaddedPos { x: b.x, y: a.y };
    let r1 = FreeAxisCount::from_pos(c1).rank();
    let r2 = FreeAxisCount::from_pos(c2).rank();
    if r1 > r2 {
        c1
    } else if r2 > r1 {
        c2
    } else {
        let legs1 = seg_clear(g, a, c1) && seg_clear(g, c1, b);
        let legs2 = seg_clear(g, a, c2) && seg_clear(g, c2, b);
        if legs1 && !legs2 {
            c1
        } else {
            c2
        }
    }
}

/// The full routing decision: the waypoint list for one connection.
/// Coincident link points collapse to the two cell centres; collinear link
/// points with a clear line give the minimal straight path; otherwise an
/// L-shaped route through the best corner, nudged into a lane when the
/// corner still sits on a node's row or column.
pub open spec fn route_spec(
    g: GridIndex,
    from: (IndexPos, Direction),
    to: (IndexPos, Direction),
) -> Seq<PaddedPos> {
    let o_from = PaddedPos::spec_of_index(from.0);
    let o_to = PaddedPos::spec_of_index(to.0);
    let a = spec_link_point(from.0, from.1);
    let b = spec_link_point(to.0, to.1);
    if a == b {
        seq![o_from, o_to]
    } else if spec_can_straight(g, from, to) {
        if (PaddedPos::spec_straight_line(a, b) matches Some(dir) && (if dir == Direction::East
            || dir == Direction::West {
            a.spec_grid_y_aligned()
        } else {
            a.spec_grid_x_aligned()
        })) {
            seq![o_from, o_to]
        } else {
            seq![o_from, a, b, o_to]
        }
    } else {
        let corner = spec_best_corner(g, a, b);
        match FreeAxisCount::spec_from_pos(corner) {
            FreeAxisCount::Two => seq![o_from, a, corner, b, o_to],
            FreeAxisCount::One(axis) => {
                let d1 = if axis == Axis::X {
                    Direction::West
                } else {
                    Direction::North
                };
                let d2 = if axis == Axis::X {
                    Direction::East
                } else {
                    Direction::South
                };
                let n1 = corner.spec_step(d1);
                let n2 = corner.spec_step(d2);
                let cost1 = PaddedPos::spec_taxicab(a, n1) + PaddedPos::spec_taxicab(b, n1);
                let cost2 = PaddedPos::spec_taxicab(a, n2) + PaddedPos::spec_taxicab(b, n2);
                let d = if cost1 <= cost2 {
                    d1
                } else {
                    d2
                };
                let nudged = if cost1 <= cost2 {
                    n1
                } else {
                    n2
                };
                let head = if PaddedPos::spec_straight_line(a, nudged) is None {
                    seq![o_from, a, a.spec_step(d), nudged]
                } else {
                    seq![o_from, a, nudged]
                };
                let tail = if PaddedPos::spec_straight_line(b, nudged) is None {
                    seq![b.spec_step(d), b, o_to]
                } else {
                    seq![b, o_to]
                };
                head + tail
            },
            FreeAxisCount::Zero => Seq::empty(),
        }
    }
}

/// Computes the waypoint list of one connection: an ordered polyline in the
/// padded routing space from the exit edge of `from`'s cell to the entry
/// edge of `to`'s cell.  The result is a function of the arguments alone
/// (calling twice with the same inputs yields the identical list), and no
/// waypoint but the two endpoints coincides with any occupied cell.
#[verifier::rlimit(80)]
pub fn get_path(grid: &GridIndex, from: (IndexPos, Direction), to: (IndexPos, Direction)) -> (r:
    Vec<PaddedPos>)
    requires
        grid.wf(),
        from.0.spec_in_bounds(grid.size),
        to.0.spec_in_bounds(grid.size),
    ensures
        r@ == route_spec(*grid, from, to),
        r@.len() >= 2,
        r@[0] == PaddedPos::spec_of_index(from.0),
        r@[r@.len() - 1] == PaddedPos::spec_of_index(to.0),
        forall|i: int| 0 < i < r@.len() - 1 ==> !(#[trigger] r@[i]).spec_grid_aligned(),
        forall|q: IndexPos|
            #[trigger] grid.spec_occupied(q) ==> forall|i: int|
                0 < i < r@.len() - 1 ==> r@[i] != PaddedPos::spec_of_index(q),
        forall|i: int|
            0 <= i < r@.len() ==> 0 <= (#[trigger] r@[i]).x <= 2 * GRID_LIMIT && 0 <= r@[i].y <= 2
                * GRID_LIMIT,
{
    let o_from = PaddedPos::of_index(from.0);
    let o_to = PaddedPos::of_index(to.0);
    let a = link_point(from.0, from.1);
    let b = link_point(to.0, to.1);
    proof {
        lemma_link_point_parity(from.0, from.1);
        lemma_link_point_parity(to.0, to.1);
    }
    let mut res: Vec<PaddedPos> = Vec::new();
    if a == b {
        res.push(o_from);
        res.push(o_to);
        proof {
            assert(res@ =~= route_spec(*grid, from, to));
        }
        proof {
            lemma_path_avoids(grid, from, to, &res);
        }
        return res;
    }
    if can_draw_straight_line(grid, from, to) {
        let on_cell_line = match PaddedPos::straight_line(a, b) {
            Some(dir) => match dir {
                Direction::East | Direction::West => a.grid_y_aligned(),
                Direction::North | Direction::South => a.grid_x_aligned(),
            },
            None => false,
        };
        if on_cell_line {
            res.push(o_from);
            res.push(o_to);
        } else {
            res.push(o_from);
            res.push(a);
            res.push(b);
            res.push(o_to);
        }
        proof {
            assert(res@ =~= route_spec(*grid, from, to));
        }
        proof {
            lemma_path_avoids(grid, from, to, &res);
        }
        return res;
    }
    let corner = get_best_corner(grid, a, b);
    match FreeAxisCount::from_pos(corner) {
        FreeAxisCount::Two => {
            res.push(o_from);
            res.push(a);
            res.push(corner);
            res.push(b);
            res.push(o_to);
            proof {
                assert(res@ =~= route_spec(*grid, from, to));
            }
        },
        FreeAxisCount::One(axis) => {
            let d1 = match axis {
                Axis::X => Direction::West,
                Axis::Y => Direction::North,
            };
            let d2 = match axis {
                Axis::X => Direction::East,
                Axis::Y => Direction::South,
            };
            let n1 = corner.step(d1);
            let n2 = corner.step(d2);
            let cost1 = PaddedPos::taxicab(a, n1) + PaddedPos::taxicab(b, n1);
            let cost2 = PaddedPos::taxicab(a, n2) + PaddedPos::taxicab(b, n2);
            let (d, nudged) = if cost1 <= cost2 {
                (d1, n1)
            } else {
                (d2, n2)
            };
            res.push(o_from);
            res.push(a);
            if PaddedPos::straight_line(a, nudged).is_none() {
                res.push(a.step(d));
            }
            res.push(nudged);
            if PaddedPos::straight_line(b, nudged).is_none() {
                res.push(b.step(d));
            }
            res.push(b);
            res.push(o_to);
            proof {
                assert(res@ =~= route_spec(*grid, from, to));
            }
        },
        FreeAxisCount::Zero => {
            proof {
                let c1 = PaddedPos { x: a.x, y: b.y };
                let c2 = PaddedPos { x: b.x, y: a.y };
                assert(FreeAxisCount::spec_from_pos(c1).spec_rank() == 0
                    ==> FreeAxisCount::spec_from_pos(c2).spec_rank() == 2);
                assert(FreeAxisCount::spec_from_pos(c2).spec_rank() == 0
                    ==> FreeAxisCount::spec_from_pos(c1).spec_rank() == 2);
                assert(false);
            }
        },
    }
    proof {
        lemma_path_avoids(grid, from, to, &res);
    }
    res
}

/// Interior waypoints of the computed route never lie on a cell, so they
/// coincide with no occupied cell.
proof fn lemma_path_avoids(
    grid: &GridIndex,
    from: (IndexPos, Direction),
    to: (IndexPos, Direction),
    res: &Vec<PaddedPos>,
)
    requires
        grid.wf(),
        from.0.spec_in_bounds(grid.size),
        to.0.spec_in_bounds(grid.size),
        res@ == route_spec(*grid, from, to),
    ensures
        res@.len() >= 2,
        res@[0] == PaddedPos::spec_of_index(from.0),
        res@[res@.len() - 1] == PaddedPos::spec_of_index(to.0),
        forall|i: int| 0 < i < res@.len() - 1 ==> !(#[trigger] res@[i]).spec_grid_aligned(),
        forall|q: IndexPos|
            #[trigger] grid.spec_occupied(q) ==> forall|i: int|
                0 < i < res@.len() - 1 ==> res@[i] != PaddedPos::spec_of_index(q),
        forall|i: int|
            0 <= i < res@.len() ==> 0 <= (#[trigger] res@[i]).x <= 2 * GRID_LIMIT && 0 <= res@[
                i
            ].y <= 2 * GRID_LIMIT,
{
    lemma_route_spec_shape(*grid, from, to);
    assert forall|q: IndexPos| #[trigger] grid.spec_occupied(q) implies forall|i: int|
        0 < i < res@.len() - 1 ==> res@[i] != PaddedPos::spec_of_index(q) by {
        assert forall|i: int| 0 < i < res@.len() - 1 implies res@[i] != PaddedPos::spec_of_index(
            q,
        ) by {
            grid.lemma_occupied_in_bounds(q);
            assert(PaddedPos::spec_of_index(q).spec_grid_aligned());
        }
    }
}

/// The shape facts of every route: at least two waypoints, the endpoints
/// are the two cell centres, and every interior waypoint lies in a lane on
/// at least one axis.
pub proof fn lemma_route_spec_shape(
    g: GridIndex,
    from: (IndexPos, Direction),
    to: (IndexPos, Direction),
)
    requires
        g.wf(),
        from.0.spec_in_bounds(g.size),
        to.0.spec_in_bounds(g.size),
    ensures
        route_spec(g, from, to).len() >= 2,
        route_spec(g, from, to)[0] == PaddedPos::spec_of_index(from.0),
        route_spec(g, from, to)[route_spec(g, from, to).len() - 1] == PaddedPos::spec_of_index(
            to.0,
        ),
        forall|i: int|
            0 < i < route_spec(g, from, to).len() - 1 ==> !(#[trigger] route_spec(g, from, to)[i])
                .spec_grid_aligned(),
        forall|i: int|
            0 <= i < route_spec(g, from, to).len() ==> 0 <= (#[trigger] route_spec(
                g,
                from,
                to,
            )[i]).x <= 2 * GRID_LIMIT && 0 <= route_spec(g, from, to)[i].y <= 2 * GRID_LIMIT,
{
    let a = spec_link_point(from.0, from.1);
    let b = spec_link_point(to.0, to.1);
    lemma_link_point_parity(from.0, from.1);
    lemma_link_point_parity(to.0, to.1);
    let r = route_spec(g, from, to);
    if a == b {
    } else if spec_can_straight(g, from, to) {
    } else {
        let c1 = PaddedPos { x: a.x, y: b.y };
        let c2 = PaddedPos { x: b.x, y: a.y };
        let corner = spec_best_corner(g, a, b);
        assert(corner == c1 || corner == c2);
        match FreeAxisCount::spec_from_pos(corner) {
            FreeAxisCount::Two => {},
            FreeAxisCount::One(axis) => {
                assert forall|i: int| 0 < i < r.len() - 1 implies !(#[trigger] r[i])
                    .spec_grid_aligned() by {}
            },
            FreeAxisCount::Zero => {
                assert(false);
            },
        }
    }
}

} // verus!

verus! {

/// Straight-line shortcut: two nodes in one row with only empty cells
/// between them, connected east exit to west entry, route as the minimal
/// straight path with no corner waypoints.
pub proof fn lemma_straight_row_shortcut(g: GridIndex, p: IndexPos, q: IndexPos)
    requires
        g.wf(),
        p.spec_in_bounds(g.size),
        q.spec_in_bounds(g.size),
        p.y == q.y,
        p.x < q.x,
        g.spec_occupied(q),
        forall|c: IndexPos| c.y == p.y && p.x < c.x < q.x ==> !g.spec_occupied(c),
    ensures
        route_spec(g, (p, Direction::East), (q, Direction::West)) == seq![
            PaddedPos::spec_of_index(p),
            PaddedPos::spec_of_index(q),
        ],
{
    let from = (p, Direction::East);
    let to = (q, Direction::West);
    let a = spec_link_point(p, Direction::East);
    let b = spec_link_point(q, Direction::West);
    assert(a.x == 2 * p.x + 2 && a.y == 2 * p.y + 1);
    assert(b.x == 2 * q.x && b.y == 2 * q.y + 1);
    if a == b {
    } else {
        assert(a.x < b.x);
        assert(PaddedPos::spec_straight_line(a, b) == Some(Direction::East));
        assert(a.spec_grid_y_aligned());
        assert(IndexPos::spec_straight_line(p, q) == Some(Direction::East));
        assert(g.spec_hit(p, Direction::East, q)) by {
            assert forall|c: IndexPos|
                crate::grid::on_ray(p, Direction::East, c) && crate::grid::nearer_on_ray(
                    Direction::East,
                    c,
                    q,
                ) implies !g.spec_occupied(c) by {
                assert(c.y == p.y && p.x < c.x < q.x);
            }
        }
        let w = choose|h: IndexPos| g.spec_hit(p, Direction::East, h);
        g.lemma_hit_unique(p, Direction::East, w, q);
        assert(g.spec_walk(p, Direction::East) == Some(q));
        assert(spec_can_straight(g, from, to));
    }
}

/// The router is deterministic: its result is a function of the grid and
/// the two endpoints alone, so two calls with identical arguments yield
/// the identical waypoint list.
pub proof fn lemma_router_deterministic(
    g: GridIndex,
    from: (IndexPos, Direction),
    to: (IndexPos, Direction),
    r1: Seq<PaddedPos>,
    r2: Seq<PaddedPos>,
)
    requires
        r1 == route_spec(g, from, to),
        r2 == route_spec(g, from, to),
    ensures
        r1 == r2,
{
}

} // verus!
