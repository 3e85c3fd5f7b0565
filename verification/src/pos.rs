//! The three coordinate spaces of the diagram model.
//!
//! `IndexPos` addresses author-visible grid cells (origin top-left, x right,
//! y down).  `PaddedPos` is the finer routing space: a cell at index `i`
//! occupies coordinate `2*i + 1`, and even coordinates are the "lanes" of
//! width one between and around cells where connectors may travel.
//! `PixelPos` is the final rendering space.  The three are distinct types on
//! purpose: every conversion is an explicit, named function, so the spaces
//! can never be mixed by accident.

use vstd::prelude::*;

use crate::ast::Direction;

verus! {

/// Largest accepted grid dimension; keeps padded-space arithmetic far from
/// `i64` overflow.
pub const GRID_LIMIT: i64 = 1_000_000;

/// A cell coordinate in the author-visible grid.
#[derive(Clone, Copy, Debug, PartialEq, Eq, Structural)]
pub struct IndexPos {
    pub x: i64,
    pub y: i64,
}

/// A coordinate in the padded routing space.
#[derive(Clone, Copy, Debug, PartialEq, Eq, Structural)]
pub struct PaddedPos {
    pub x: i64,
    pub y: i64,
}

/// A pixel coordinate in the rendered image.
#[derive(Clone, Copy, Debug, PartialEq, Eq, Structural)]
pub struct PixelPos {
    pub x: i64,
    pub y: i64,
}

impl DeepView for IndexPos {
    type V = IndexPos;

    open spec fn deep_view(&self) -> IndexPos {
        *self
    }
}

impl IndexPos {
    pub fn new(x: i64, y: i64) -> (r: IndexPos)
        ensures
            r == (IndexPos { x: x, y: y }),
    {
        IndexPos { x, y }
    }

    /// Whether the position lies inside a grid of the given size.
    pub open spec fn spec_in_bounds(self, bounds: IndexPos) -> bool {
        0 <= self.x < bounds.x && 0 <= self.y < bounds.y
    }

    pub fn in_bounds(&self, bounds: IndexPos) -> (r: bool)
        ensures
            r == self.spec_in_bounds(bounds),
    {
        self.x >= 0 && self.x < bounds.x && self.y >= 0 && self.y < bounds.y
    }

    /// The neighbouring cell coordinate one step in the given direction.
    pub open spec fn spec_step(self, dir: Direction) -> IndexPos {
        IndexPos { x: (self.x + dir.spec_dx()) as i64, y: (self.y + dir.spec_dy()) as i64 }
    }

    pub fn step(&self, dir: Direction) -> (r: IndexPos)
        requires
            self.x + dir.spec_dx() <= i64::MAX,
            self.x + dir.spec_dx() >= i64::MIN,
            self.y + dir.spec_dy() <= i64::MAX,
            self.y + dir.spec_dy() >= i64::MIN,
        ensures
            r == self.spec_step(dir),
    {
        IndexPos { x: self.x + dir.dx(), y: self.y + dir.dy() }
    }

    /// The direction of the axis-aligned line from `from` to `to`, if the two
    /// points are distinct and share exactly one coordinate.
    pub open spec fn spec_straight_line(from: IndexPos, to: IndexPos) -> Option<Direction> {
        if from.x == to.x && from.y == to.y {
            None
        } else if from.y == to.y {
            if from.x < to.x {
                Some(Direction::East)
            } else {
                Some(Direction::West)
            }
        } else if from.x == to.x {
            if from.y < to.y {
                Some(Direction::South)
            } else {
                Some(Direction::North)
            }
        } else {
            None
        }
    }

    pub fn straight_line(from: IndexPos, to: IndexPos) -> (r: Option<Direction>)
        ensures
            r == IndexPos::spec_straight_line(from, to),
    {
        if from.x == to.x && from.y == to.y {
            None
        } else if from.y == to.y {
            if from.x < to.x {
                Some(Direction::East)
            } else {
                Some(Direction::West)
            }
        } else if from.x == to.x {
            if from.y < to.y {
                Some(Direction::South)
            } else {
                Some(Direction::North)
            }
        } else {
            None
        }
    }
}

impl PaddedPos {
    pub fn new(x: i64, y: i64) -> (r: PaddedPos)
        ensures
            r == (PaddedPos { x: x, y: y }),
    {
        PaddedPos { x, y }
    }

    /// The padded coordinate of the centre of a grid cell.
    pub open spec fn spec_of_index(p: IndexPos) -> PaddedPos {
        PaddedPos { x: (2 * p.x + 1) as i64, y: (2 * p.y + 1) as i64 }
    }

    pub fn of_index(p: IndexPos) -> (r: PaddedPos)
        requires
            0 <= p.x <= GRID_LIMIT,
            0 <= p.y <= GRID_LIMIT,
        ensures
            r == PaddedPos::spec_of_index(p),
    {
        PaddedPos { x: 2 * p.x + 1, y: 2 * p.y + 1 }
    }

    /// The grid cell whose centre is this (cell-aligned) padded coordinate.
    pub open spec fn spec_to_index(self) -> IndexPos {
        IndexPos { x: ((self.x - 1) / 2) as i64, y: ((self.y - 1) / 2) as i64 }
    }

    pub fn to_index(&self) -> (r: IndexPos)
        requires
            self.x >= 1,
            self.y >= 1,
        ensures
            r == self.spec_to_index(),
    {
        IndexPos {
            x: (((self.x - 1) as u64) / 2) as i64,
            y: (((self.y - 1) as u64) / 2) as i64,
        }
    }

    /// One padded step in the given direction.
    pub open spec fn spec_step(self, dir: Direction) -> PaddedPos {
        PaddedPos { x: (self.x + dir.spec_dx()) as i64, y: (self.y + dir.spec_dy()) as i64 }
    }

    pub fn step(&self, dir: Direction) -> (r: PaddedPos)
        requires
            self.x + dir.spec_dx() <= i64::MAX,
            self.x + dir.spec_dx() >= i64::MIN,
            self.y + dir.spec_dy() <= i64::MAX,
            self.y + dir.spec_dy() >= i64::MIN,
        ensures
            r == self.spec_step(dir),
    {
        PaddedPos { x: self.x + dir.dx(), y: self.y + dir.dy() }
    }

    /// A padded coordinate is x-aligned with the grid when it lies on a cell
    /// column (odd coordinate) rather than in a lane.
    pub open spec fn spec_grid_x_aligned(self) -> bool {
        self.x % 2 == 1
    }

    pub open spec fn spec_grid_y_aligned(self) -> bool {
        self.y % 2 == 1
    }

    /// Aligned on both axes: the coordinate coincides with a grid cell.
    pub open spec fn spec_grid_aligned(self) -> bool {
        self.spec_grid_x_aligned() && self.spec_grid_y_aligned()
    }

    pub fn grid_x_aligned(&self) -> (r: bool)
        requires
            self.x >= 0,
        ensures
            r == self.spec_grid_x_aligned(),
    {
        (self.x as u64) % 2 == 1
    }

    pub fn grid_y_aligned(&self) -> (r: bool)
        requires
            self.y >= 0,
        ensures
            r == self.spec_grid_y_aligned(),
    {
        (self.y as u64) % 2 == 1
    }

    pub fn grid_aligned(&self) -> (r: bool)
        requires
            self.x >= 0,
            self.y >= 0,
        ensures
            r == self.spec_grid_aligned(),
    {
        self.grid_x_aligned() && self.grid_y_aligned()
    }

    /// Rounds each coordinate down to the nearest cell-aligned (odd)
    /// coordinate.
    pub open spec fn spec_snap_to_grid(self) -> PaddedPos {
        PaddedPos {
            x: if self.x % 2 == 1 { self.x } else { (self.x - 1) as i64 },
            y: if self.y % 2 == 1 { self.y } else { (self.y - 1) as i64 },
        }
    }

    pub fn snap_to_grid(&self) -> (r: PaddedPos)
        requires
            self.x >= 0,
            self.y >= 0,
        ensures
            r == self.spec_snap_to_grid(),
    {
        let x: i64 = if (self.x as u64) % 2 == 1 { self.x } else { self.x - 1 };
        let y: i64 = if (self.y as u64) % 2 == 1 { self.y } else { self.y - 1 };
        PaddedPos { x, y }
    }

    /// Componentwise signum.
    pub open spec fn spec_normalize(self) -> PaddedPos {
        PaddedPos {
            x: if self.x < 0 { -1 as i64 } else if self.x == 0 { 0 } else { 1 },
            y: if self.y < 0 { -1 as i64 } else if self.y == 0 { 0 } else { 1 },
        }
    }

    pub fn normalize(&self) -> (r: PaddedPos)
        ensures
            r == self.spec_normalize(),
    {
        let x: i64 = if self.x < 0 { -1 } else if self.x == 0 { 0 } else { 1 };
        let y: i64 = if self.y < 0 { -1 } else if self.y == 0 { 0 } else { 1 };
        PaddedPos { x, y }
    }

    /// Componentwise maximum with a scalar.
    pub open spec fn spec_max_scalar(self, val: i64) -> PaddedPos {
        PaddedPos {
            x: if self.x >= val { self.x } else { val },
            y: if self.y >= val { self.y } else { val },
        }
    }

    pub fn max_scalar(&self, val: i64) -> (r: PaddedPos)
        ensures
            r == self.spec_max_scalar(val),
    {
        let x: i64 = if self.x >= val { self.x } else { val };
        let y: i64 = if self.y >= val { self.y } else { val };
        PaddedPos { x, y }
    }

    /// Componentwise difference.
    pub open spec fn spec_minus(self, other: PaddedPos) -> PaddedPos {
        PaddedPos { x: (self.x - other.x) as i64, y: (self.y - other.y) as i64 }
    }

    pub fn minus(&self, other: PaddedPos) -> (r: PaddedPos)
        requires
            self.x - other.x <= i64::MAX,
            self.x - other.x >= i64::MIN,
            self.y - other.y <= i64::MAX,
            self.y - other.y >= i64::MIN,
        ensures
            r == self.spec_minus(other),
    {
        PaddedPos { x: self.x - other.x, y: self.y - other.y }
    }

    /// See `IndexPos::spec_straight_line`.
    pub open spec fn spec_straight_line(from: PaddedPos, to: PaddedPos) -> Option<Direction> {
        if from.x == to.x && from.y == to.y {
            None
        } else if from.y == to.y {
            if from.x < to.x {
                Some(Direction::East)
            } else {
                Some(Direction::West)
            }
        } else if from.x == to.x {
            if from.y < to.y {
                Some(Direction::South)
            } else {
                Some(Direction::North)
            }
        } else {
            None
        }
    }

    pub fn straight_line(from: PaddedPos, to: PaddedPos) -> (r: Option<Direction>)
        ensures
            r == PaddedPos::spec_straight_line(from, to),
    {
        if from.x == to.x && from.y == to.y {
            None
        } else if from.y == to.y {
            if from.x < to.x {
                Some(Direction::East)
            } else {
                Some(Direction::West)
            }
        } else if from.x == to.x {
            if from.y < to.y {
                Some(Direction::South)
            } else {
                Some(Direction::North)
            }
        } else {
            None
        }
    }

    /// Taxicab (L1) distance between two padded coordinates.
    pub open spec fn spec_taxicab(from: PaddedPos, to: PaddedPos) -> int {
        let dx = if from.x >= to.x { from.x - to.x } else { to.x - from.x };
        let dy = if from.y >= to.y { from.y - to.y } else { to.y - from.y };
        dx + dy
    }

    pub fn taxicab(from: PaddedPos, to: PaddedPos) -> (r: i64)
        requires
            -GRID_LIMIT <= from.x <= 4 * GRID_LIMIT,
            -GRID_LIMIT <= from.y <= 4 * GRID_LIMIT,
            -GRID_LIMIT <= to.x <= 4 * GRID_LIMIT,
            -GRID_LIMIT <= to.y <= 4 * GRID_LIMIT,
        ensures
            r == PaddedPos::spec_taxicab(from, to),
    {
        let dx: i64 = if from.x >= to.x { from.x - to.x } else { to.x - from.x };
        let dy: i64 = if from.y >= to.y { from.y - to.y } else { to.y - from.y };
        dx + dy
    }
}

impl PixelPos {
    pub fn new(x: i64, y: i64) -> (r: PixelPos)
        ensures
            r == (PixelPos { x: x, y: y }),
    {
        PixelPos { x, y }
    }

    /// A cell index reinterpreted as a pixel count (used as a cell counter in
    /// pixel arithmetic, not as a finished pixel position).
    pub open spec fn spec_of_index(p: IndexPos) -> PixelPos {
        PixelPos { x: p.x, y: p.y }
    }

    pub fn of_index(p: IndexPos) -> (r: PixelPos)
        ensures
            r == PixelPos::spec_of_index(p),
    {
        PixelPos { x: p.x, y: p.y }
    }

    /// A padded coordinate reinterpreted as a lane counter in pixel
    /// arithmetic.
    pub open spec fn spec_of_padded(p: PaddedPos) -> PixelPos {
        PixelPos { x: p.x, y: p.y }
    }

    pub fn of_padded(p: PaddedPos) -> (r: PixelPos)
        ensures
            r == PixelPos::spec_of_padded(p),
    {
        PixelPos { x: p.x, y: p.y }
    }

    /// The unit pixel vector of a direction.
    pub open spec fn spec_of_direction(dir: Direction) -> PixelPos {
        PixelPos { x: dir.spec_dx() as i64, y: dir.spec_dy() as i64 }
    }

    pub fn of_direction(dir: Direction) -> (r: PixelPos)
        ensures
            r == PixelPos::spec_of_direction(dir),
    {
        PixelPos { x: dir.dx(), y: dir.dy() }
    }

    pub open spec fn spec_plus(self, other: PixelPos) -> PixelPos {
        PixelPos { x: (self.x + other.x) as i64, y: (self.y + other.y) as i64 }
    }

    pub fn plus(&self, other: PixelPos) -> (r: PixelPos)
        requires
            self.x + other.x <= i64::MAX,
            self.x + other.x >= i64::MIN,
            self.y + other.y <= i64::MAX,
            self.y + other.y >= i64::MIN,
        ensures
            r == self.spec_plus(other),
    {
        PixelPos { x: self.x + other.x, y: self.y + other.y }
    }

    pub open spec fn spec_minus(self, other: PixelPos) -> PixelPos {
        PixelPos { x: (self.x - other.x) as i64, y: (self.y - other.y) as i64 }
    }

    pub fn minus(&self, other: PixelPos) -> (r: PixelPos)
        requires
            self.x - other.x <= i64::MAX,
            self.x - other.x >= i64::MIN,
            self.y - other.y <= i64::MAX,
            self.y - other.y >= i64::MIN,
        ensures
            r == self.spec_minus(other),
    {
        PixelPos { x: self.x - other.x, y: self.y - other.y }
    }

    /// Componentwise product.
    pub open spec fn spec_times(self, other: PixelPos) -> PixelPos {
        PixelPos { x: (self.x * other.x) as i64, y: (self.y * other.y) as i64 }
    }

    pub fn times(&self, other: PixelPos) -> (r: PixelPos)
        requires
            self.x * other.x <= i64::MAX,
            self.x * other.x >= i64::MIN,
            self.y * other.y <= i64::MAX,
            self.y * other.y >= i64::MIN,
        ensures
            r == self.spec_times(other),
    {
        PixelPos { x: self.x * other.x, y: self.y * other.y }
    }

    /// Multiplication by a scalar.
    pub open spec fn spec_scale(self, k: i64) -> PixelPos {
        PixelPos { x: (self.x * k) as i64, y: (self.y * k) as i64 }
    }

    pub fn scale(&self, k: i64) -> (r: PixelPos)
        requires
            self.x * k <= i64::MAX,
            self.x * k >= i64::MIN,
            self.y * k <= i64::MAX,
            self.y * k >= i64::MIN,
        ensures
            r == self.spec_scale(k),
    {
        PixelPos { x: self.x * k, y: self.y * k }
    }

    /// Componentwise halving (used for centres and midpoints).
    pub open spec fn spec_half(self) -> PixelPos {
        PixelPos { x: (self.x / 2) as i64, y: (self.y / 2) as i64 }
    }

    pub fn half(&self) -> (r: PixelPos)
        requires
            self.x >= 0,
            self.y >= 0,
        ensures
            r == self.spec_half(),
    {
        PixelPos { x: ((self.x as u64) / 2) as i64, y: ((self.y as u64) / 2) as i64 }
    }

    /// The midpoint of two pixel positions.
    pub open spec fn spec_middle(a: PixelPos, b: PixelPos) -> PixelPos {
        PixelPos { x: ((a.x + b.x) / 2) as i64, y: ((a.y + b.y) / 2) as i64 }
    }

    pub fn middle(a: PixelPos, b: PixelPos) -> (r: PixelPos)
        requires
            a.x + b.x <= i64::MAX,
            a.x + b.x >= 0,
            a.y + b.y <= i64::MAX,
            a.y + b.y >= 0,
        ensures
            r == PixelPos::spec_middle(a, b),
    {
        PixelPos { x: (((a.x + b.x) as u64) / 2) as i64, y: (((a.y + b.y) as u64) / 2) as i64 }
    }
}

} // verus!
