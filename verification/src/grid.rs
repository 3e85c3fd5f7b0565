//! The grid index: position-to-identifier lookups over the parsed grid, the
//! directional `walk` across empty cells, and destination normalisation.

use vstd::prelude::*;

use crate::ast::{Direction, Grid as AstGrid, Identifier};
use crate::pos::{IndexPos, GRID_LIMIT};
use crate::table::{nmap_contains, nmap_index, nmap_nodup, id_map_get};

verus! {

/// Why a connection destination could not be resolved.
#[derive(Debug, PartialEq, Eq)]
pub enum ResolutionError {
    /// No node lies in this direction from the origin.
    InvalidDirection(Direction),
    /// No node carries this label.
    UnknownLabel(Identifier),
}

/// The model of a `ResolutionError`.
pub enum ResolutionErrorV {
    InvalidDirection(Direction),
    UnknownLabel(Seq<char>),
}

impl DeepView for ResolutionError {
    type V = ResolutionErrorV;

    open spec fn deep_view(&self) -> ResolutionErrorV {
        match self {
            ResolutionError::InvalidDirection(d) => ResolutionErrorV::InvalidDirection(*d),
            ResolutionError::UnknownLabel(l) => ResolutionErrorV::UnknownLabel(l@),
        }
    }
}

impl Clone for ResolutionError {
    fn clone(&self) -> (r: ResolutionError)
        ensures
            r == *self,
    {
        match self {
            ResolutionError::InvalidDirection(d) => ResolutionError::InvalidDirection(*d),
            ResolutionError::UnknownLabel(l) => ResolutionError::UnknownLabel(l.clone()),
        }
    }
}

/// Strict row-major order on grid positions.
pub open spec fn row_major_lt(a: IndexPos, b: IndexPos) -> bool {
    a.y < b.y || (a.y == b.y && a.x < b.x)
}

/// Whether `p` lies on the open ray that leaves `start` in direction `dir`.
pub open spec fn on_ray(start: IndexPos, dir: Direction, p: IndexPos) -> bool {
    match dir {
        Direction::East => p.y == start.y && p.x > start.x,
        Direction::West => p.y == start.y && p.x < start.x,
        Direction::South => p.x == start.x && p.y > start.y,
        Direction::North => p.x == start.x && p.y < start.y,
    }
}

/// Whether `q` is strictly nearer the ray's start than `p` (both on the ray).
pub open spec fn nearer_on_ray(dir: Direction, q: IndexPos, p: IndexPos) -> bool {
    match dir {
        Direction::East => q.x < p.x,
        Direction::West => q.x > p.x,
        Direction::South => q.y < p.y,
        Direction::North => q.y > p.y,
    }
}

/// A bidirectional index of the grid: its size and the row-major list of
/// occupied positions with their identifiers.
#[derive(Debug)]
pub struct GridIndex {
    pub size: IndexPos,
    pub position_to_id: Vec<(IndexPos, Identifier)>,
}

impl GridIndex {
    /// Well-formedness: bounded size, every entry in bounds, entries in
    /// strictly increasing row-major order (hence no duplicate positions).
    pub open spec fn wf(self) -> bool {
        &&& 0 <= self.size.x <= GRID_LIMIT
        &&& 0 <= self.size.y <= GRID_LIMIT
        &&& forall|i: int|
            0 <= i < self.position_to_id@.len()
                ==> (#[trigger] self.position_to_id@[i].0).spec_in_bounds(self.size)
        &&& forall|i: int, j: int|
            0 <= i < j < self.position_to_id@.len()
                ==> row_major_lt(
                    #[trigger] self.position_to_id@[i].0,
                    #[trigger] self.position_to_id@[j].0,
                )
    }

    /// Whether a node occupies the cell.
    pub open spec fn spec_occupied(self, p: IndexPos) -> bool {
        exists|i: int| 0 <= i < self.position_to_id@.len() && self.position_to_id@[i].0 == p
    }

    /// The identifier of the node occupying the cell (meaningful when
    /// occupied).
    pub open spec fn spec_id_at(self, p: IndexPos) -> Seq<char> {
        self.position_to_id@[choose|i: int|
            0 <= i < self.position_to_id@.len() && self.position_to_id@[i].0 == p].1@
    }

    /// Distinct entries of a well-formed index hold distinct positions.
    pub proof fn lemma_entry_unique(self, i: int, j: int)
        requires
            self.wf(),
            0 <= i < self.position_to_id@.len(),
            0 <= j < self.position_to_id@.len(),
            self.position_to_id@[i].0 == self.position_to_id@[j].0,
        ensures
            i == j,
    {
        if i < j {
            assert(row_major_lt(self.position_to_id@[i].0, self.position_to_id@[j].0));
        } else if j < i {
            assert(row_major_lt(self.position_to_id@[j].0, self.position_to_id@[i].0));
        }
    }

    /// Occupied cells lie in bounds.
    pub proof fn lemma_occupied_in_bounds(self, p: IndexPos)
        requires
            self.wf(),
            self.spec_occupied(p),
        ensures
            p.spec_in_bounds(self.size),
    {
        let i = choose|i: int|
            0 <= i < self.position_to_id@.len() && self.position_to_id@[i].0 == p;
        assert(self.position_to_id@[i].0.spec_in_bounds(self.size));
    }

    /// Whether a node occupies the cell.
    pub fn occupied(&self, p: IndexPos) -> (r: bool)
        ensures
            r == self.spec_occupied(p),
    {
        let mut i: usize = 0;
        while i < self.position_to_id.len()
            invariant
                0 <= i <= self.position_to_id@.len(),
                forall|j: int| 0 <= j < i ==> self.position_to_id@[j].0 != p,
            decreases self.position_to_id@.len() - i,
        {
            if self.position_to_id[i].0 == p {
                return true;
            }
            i += 1;
        }
        false
    }

    /// The identifier at an occupied cell.
    pub fn get_id(&self, p: IndexPos) -> (r: Option<&Identifier>)
        requires
            self.wf(),
        ensures
            r is Some <==> self.spec_occupied(p),
            r is Some ==> r->Some_0@ == self.spec_id_at(p),
    {
        let mut i: usize = 0;
        while i < self.position_to_id.len()
            invariant
                0 <= i <= self.position_to_id@.len(),
                self.wf(),
                forall|j: int| 0 <= j < i ==> self.position_to_id@[j].0 != p,
            decreases self.position_to_id@.len() - i,
        {
            if self.position_to_id[i].0 == p {
                proof {
                    let w = choose|k: int|
                        0 <= k < self.position_to_id@.len() && self.position_to_id@[k].0 == p;
                    self.lemma_entry_unique(w, i as int);
                }
                return Some(&self.position_to_id[i].1);
            }
            i += 1;
        }
        None
    }

    /// All positions occupied by a given identifier, in row-major order.
    pub open spec fn spec_positions_of(self, id: Seq<char>) -> Seq<IndexPos> {
        spec_positions_in(self.position_to_id@, id)
    }

    /// All occurrences of an identifier; `None` when it occurs nowhere.
    pub fn get_positions(&self, id: &Identifier) -> (r: Option<Vec<IndexPos>>)
        ensures
            r is Some <==> self.spec_positions_of(id@).len() > 0,
            r is Some ==> r->Some_0@ == self.spec_positions_of(id@),
    {
        let s = &self.position_to_id;
        let mut acc: Vec<IndexPos> = Vec::new();
        let mut i: usize = 0;
        while i < s.len()
            invariant
                0 <= i <= s@.len(),
                acc@ == spec_positions_in(s@.take(i as int), id@),
            decreases s@.len() - i,
        {
            proof {
                assert(s@.take(i as int + 1).drop_last() =~= s@.take(i as int));
                assert(s@.take(i as int + 1).last() == s@[i as int]);
            }
            if s[i].1.same_as(id) {
                acc.push(s[i].0);
            }
            i += 1;
        }
        proof {
            assert(s@.take(s@.len() as int) =~= s@);
        }
        if acc.len() > 0 {
            Some(acc)
        } else {
            None
        }
    }

    /// The nearest occupied cell on the open ray from `start` in `dir`:
    /// occupied, on the ray, in bounds, with nothing occupied nearer.
    pub open spec fn spec_hit(self, start: IndexPos, dir: Direction, p: IndexPos) -> bool {
        &&& on_ray(start, dir, p)
        &&& p.spec_in_bounds(self.size)
        &&& self.spec_occupied(p)
        &&& forall|q: IndexPos|
            on_ray(start, dir, q) && nearer_on_ray(dir, q, p) ==> !self.spec_occupied(q)
    }

    /// What `walk` returns: the nearest occupied cell on the ray, if any.
    pub open spec fn spec_walk(self, start: IndexPos, dir: Direction) -> Option<IndexPos> {
        if exists|p: IndexPos| self.spec_hit(start, dir, p) {
            Some(choose|p: IndexPos| self.spec_hit(start, dir, p))
        } else {
            None
        }
    }

    /// At most one cell is the nearest hit on a ray.
    pub proof fn lemma_hit_unique(self, start: IndexPos, dir: Direction, p1: IndexPos, p2: IndexPos)
        requires
            self.spec_hit(start, dir, p1),
            self.spec_hit(start, dir, p2),
        ensures
            p1 == p2,
    {
        if p1 != p2 {
            if nearer_on_ray(dir, p1, p2) {
                assert(!self.spec_occupied(p1));
            } else {
                assert(nearer_on_ray(dir, p2, p1));
                assert(!self.spec_occupied(p2));
            }
        }
    }

    /// Walks from `start` in direction `dir` across empty cells and returns
    /// the first occupied cell, or `None` when the walk leaves the grid.
    /// Empty cells are transparent; the start cell itself is never returned.
    pub fn walk(&self, start: IndexPos, dir: Direction) -> (r: Option<IndexPos>)
        requires
            self.wf(),
            start.spec_in_bounds(self.size),
        ensures
            r == self.spec_walk(start, dir),
            r is Some ==> self.spec_hit(start, dir, r->Some_0),
            r is None ==> forall|q: IndexPos| on_ray(start, dir, q) ==> !self.spec_occupied(q),
    {
        let mut current: IndexPos = start.step(dir);
        loop
            invariant
                self.wf(),
                start.spec_in_bounds(self.size),
                on_ray(start, dir, current),
                -1 <= current.x <= self.size.x,
                -1 <= current.y <= self.size.y,
                forall|q: IndexPos|
                    on_ray(start, dir, q) && nearer_on_ray(dir, q, current)
                        ==> !self.spec_occupied(q),
            decreases
                    match dir {
                        Direction::East => self.size.x - current.x,
                        Direction::West => current.x + 1,
                        Direction::South => self.size.y - current.y,
                        Direction::North => current.y + 1,
                    },
        {
            if !current.in_bounds(self.size) {
                proof {
                    assert forall|q: IndexPos| on_ray(start, dir, q) implies !self.spec_occupied(
                        q,
                    ) by {
                        if self.spec_occupied(q) {
                            self.lemma_occupied_in_bounds(q);
                            assert(nearer_on_ray(dir, q, current));
                        }
                    }
                    assert(self.spec_walk(start, dir) is Some ==> false);
                }
                return None;
            }
            if self.occupied(current) {
                proof {
                    assert(self.spec_hit(start, dir, current));
                    let w = choose|p: IndexPos| self.spec_hit(start, dir, p);
                    self.lemma_hit_unique(start, dir, w, current);
                }
                return Some(current);
            }
            current = current.step(dir);
        }
    }

    /// Turns a raw destination into a concrete target position: `Itself` is
    /// the origin, `Relative` walks the grid, `Label` consults the unique
    /// label table.
    pub fn normalize_destination(
        &self,
        from: IndexPos,
        to: &crate::ast::Destination,
        labels: &Vec<(Identifier, IndexPos)>,
    ) -> (r: Result<IndexPos, ResolutionError>)
        requires
            self.wf(),
            from.spec_in_bounds(self.size),
            nmap_nodup(labels.deep_view()),
        ensures
            r matches Ok(p) ==> self.spec_normalize(from, to.deep_view(), labels.deep_view())
                == Ok::<IndexPos, ResolutionErrorV>(p),
            r matches Err(e) ==> self.spec_normalize(from, to.deep_view(), labels.deep_view())
                == Err::<IndexPos, ResolutionErrorV>(e.deep_view()),
    {
        match to {
            crate::ast::Destination::Itself => Ok(from),
            crate::ast::Destination::Relative(dir) => match self.walk(from, *dir) {
                Some(p) => Ok(p),
                None => Err(ResolutionError::InvalidDirection(*dir)),
            },
            crate::ast::Destination::Label(label) => match id_map_get(labels, label) {
                Some(p) => Ok(*p),
                None => Err(ResolutionError::UnknownLabel(label.clone())),
            },
        }
    }

    /// The model of `normalize_destination`.
    pub open spec fn spec_normalize(
        self,
        from: IndexPos,
        to: crate::ast::DestinationV,
        labels: Seq<(Seq<char>, IndexPos)>,
    ) -> Result<IndexPos, ResolutionErrorV> {
        match to {
            crate::ast::DestinationV::Itself => Ok(from),
            crate::ast::DestinationV::Relative(dir) => match self.spec_walk(from, dir) {
                Some(p) => Ok(p),
                None => Err(ResolutionErrorV::InvalidDirection(dir)),
            },
            crate::ast::DestinationV::Label(label) => if nmap_contains(labels, label) {
                Ok(nmap_index(labels, label))
            } else {
                Err(ResolutionErrorV::UnknownLabel(label))
            },
        }
    }
}

/// The positions among `s` whose identifier is `id`, in list order.
pub open spec fn spec_positions_in(s: Seq<(IndexPos, Identifier)>, id: Seq<char>) -> Seq<IndexPos>
    decreases s.len(),
{
    if s.len() == 0 {
        Seq::empty()
    } else {
        let rest = spec_positions_in(s.drop_last(), id);
        if s.last().1@ == id {
            rest.push(s.last().0)
        } else {
            rest
        }
    }
}

/// Membership in `spec_positions_in` is occupancy by that identifier.
pub proof fn lemma_positions_in_contains(s: Seq<(IndexPos, Identifier)>, id: Seq<char>, p: IndexPos)
    ensures
        spec_positions_in(s, id).contains(p)
            <==> exists|i: int| 0 <= i < s.len() && s[i].0 == p && s[i].1@ == id,
    decreases s.len(),
{
    if s.len() > 0 {
        let rest = spec_positions_in(s.drop_last(), id);
        let full = spec_positions_in(s, id);
        lemma_positions_in_contains(s.drop_last(), id, p);
        if exists|i: int| 0 <= i < s.len() && s[i].0 == p && s[i].1@ == id {
            let i = choose|i: int| 0 <= i < s.len() && s[i].0 == p && s[i].1@ == id;
            if i == s.len() - 1 {
                assert(full[full.len() - 1] == p);
            } else {
                assert(s.drop_last()[i] == s[i]);
                assert(rest.contains(p));
                let j = choose|j: int| 0 <= j < rest.len() && rest[j] == p;
                assert(full[j] == p);
            }
            assert(full.contains(p));
        }
        if full.contains(p) {
            let j = choose|j: int| 0 <= j < full.len() && full[j] == p;
            if s.last().1@ == id && j == full.len() - 1 {
                assert(s[s.len() - 1].0 == p && s[s.len() - 1].1@ == id);
            } else {
                assert(full[j] == rest[j]);
                assert(rest.contains(p));
                let k = choose|k: int|
                    0 <= k < s.drop_last().len() && s.drop_last()[k].0 == p
                        && s.drop_last()[k].1@ == id;
                assert(s[k] == s.drop_last()[k]);
            }
        }
    }
}

/// A position is an occurrence of an identifier exactly when that node
/// occupies it.
impl GridIndex {
    pub proof fn lemma_positions_of_occupied(self, id: Seq<char>, p: IndexPos)
        requires
            self.wf(),
        ensures
            self.spec_positions_of(id).contains(p) <==> (self.spec_occupied(p)
                && self.spec_id_at(p) == id),
    {
        lemma_positions_in_contains(self.position_to_id@, id, p);
        if self.spec_positions_of(id).contains(p) {
            let i = choose|i: int|
                0 <= i < self.position_to_id@.len() && self.position_to_id@[i].0 == p
                    && self.position_to_id@[i].1@ == id;
            assert(self.spec_occupied(p));
            let w = choose|w: int|
                0 <= w < self.position_to_id@.len() && self.position_to_id@[w].0 == p;
            self.lemma_entry_unique(w, i);
        }
        if self.spec_occupied(p) && self.spec_id_at(p) == id {
            let w = choose|w: int|
                0 <= w < self.position_to_id@.len() && self.position_to_id@[w].0 == p;
            assert(self.position_to_id@[w].1@ == id);
        }
    }

    /// The occurrence list of an identifier is strictly row-major sorted.
    pub proof fn lemma_positions_of_sorted(self, id: Seq<char>)
        requires
            self.wf(),
        ensures
            forall|a: int, b: int|
                0 <= a < b < self.spec_positions_of(id).len() ==> row_major_lt(
                    #[trigger] self.spec_positions_of(id)[a],
                    #[trigger] self.spec_positions_of(id)[b],
                ),
    {
        lemma_positions_in_sorted(self.position_to_id@, id);
    }
}

/// If any occupied cell lies on a ray, some cell is the nearest hit.
impl GridIndex {
    pub proof fn lemma_hit_exists(self, start: IndexPos, dir: Direction, q: IndexPos)
        requires
            self.wf(),
            on_ray(start, dir, q),
            self.spec_occupied(q),
        ensures
            exists|h: IndexPos| self.spec_hit(start, dir, h),
        decreases
                match dir {
                    Direction::East => q.x - start.x,
                    Direction::West => start.x - q.x,
                    Direction::South => q.y - start.y,
                    Direction::North => start.y - q.y,
                },
    {
        self.lemma_occupied_in_bounds(q);
        if forall|q2: IndexPos|
            on_ray(start, dir, q2) && nearer_on_ray(dir, q2, q) ==> !self.spec_occupied(q2) {
            assert(self.spec_hit(start, dir, q));
        } else {
            let q2 = choose|q2: IndexPos|
                on_ray(start, dir, q2) && nearer_on_ray(dir, q2, q) && self.spec_occupied(q2);
            self.lemma_hit_exists(start, dir, q2);
        }
    }

    /// The walk finds a node exactly when some occupied cell lies on the ray.
    pub proof fn lemma_walk_some_iff(self, start: IndexPos, dir: Direction)
        requires
            self.wf(),
        ensures
            (self.spec_walk(start, dir) is Some) <==> exists|q: IndexPos|
                on_ray(start, dir, q) && self.spec_occupied(q),
    {
        if self.spec_walk(start, dir) is Some {
            let h = choose|h: IndexPos| self.spec_hit(start, dir, h);
            assert(on_ray(start, dir, h) && self.spec_occupied(h));
        }
        if exists|q: IndexPos| on_ray(start, dir, q) && self.spec_occupied(q) {
            let q = choose|q: IndexPos| on_ray(start, dir, q) && self.spec_occupied(q);
            self.lemma_hit_exists(start, dir, q);
        }
    }
}

/// Positions filtered from a sorted entry list stay sorted.
pub proof fn lemma_positions_in_sorted(s: Seq<(IndexPos, Identifier)>, id: Seq<char>)
    requires
        forall|i: int, j: int|
            0 <= i < j < s.len() ==> row_major_lt(#[trigger] s[i].0, #[trigger] s[j].0),
    ensures
        forall|a: int, b: int|
            0 <= a < b < spec_positions_in(s, id).len() ==> row_major_lt(
                #[trigger] spec_positions_in(s, id)[a],
                #[trigger] spec_positions_in(s, id)[b],
            ),
    decreases s.len(),
{
    if s.len() > 0 {
        let rest = spec_positions_in(s.drop_last(), id);
        let full = spec_positions_in(s, id);
        assert(forall|i: int, j: int|
            0 <= i < j < s.drop_last().len() ==> row_major_lt(
                #[trigger] s.drop_last()[i].0,
                #[trigger] s.drop_last()[j].0,
            ));
        lemma_positions_in_sorted(s.drop_last(), id);
        if s.last().1@ == id {
            assert forall|a: int, b: int|
                0 <= a < b < full.len() implies row_major_lt(full[a], full[b]) by {
                if b < full.len() - 1 {
                    assert(row_major_lt(rest[a], rest[b]));
                } else {
                    assert(full[a] == rest[a]);
                    assert(rest.contains(rest[a]));
                    lemma_positions_in_contains(s.drop_last(), id, rest[a]);
                    let i = choose|i: int|
                        0 <= i < s.drop_last().len() && s.drop_last()[i].0 == rest[a]
                            && s.drop_last()[i].1@ == id;
                    assert(row_major_lt(s[i].0, s[s.len() - 1].0));
                }
            }
        }
    }
}

/// Builds the grid index from the raw grid: every occupied cell, row-major.
pub fn build_grid_index(grid: &AstGrid) -> (r: GridIndex)
    requires
        grid.spec_fits(),
    ensures
        r.wf(),
        r.size.x == grid.spec_width(),
        r.size.y == grid.spec_height(),
        forall|p: IndexPos|
            #[trigger] r.spec_occupied(p)
                <==> (grid.spec_cell(p.x as int, p.y as int) matches Some(_)),
        forall|p: IndexPos|
            r.spec_occupied(p) ==> (grid.spec_cell(p.x as int, p.y as int) matches Some(n)
                && #[trigger] r.spec_id_at(p) == n.id),
{
    let size = grid.size();
    let mut cells: Vec<(IndexPos, Identifier)> = Vec::new();
    let mut y: usize = 0;
    while y < grid.0.len()
        invariant
            0 <= y <= grid@.len(),
            grid@.len() == grid.0@.len(),
            grid.spec_fits(),
            size.x == grid.spec_width(),
            size.y == grid.spec_height(),
            forall|i: int|
                0 <= i < cells@.len() ==> (#[trigger] cells@[i].0).y < y
                    && cells@[i].0.spec_in_bounds(size),
            forall|i: int, j: int|
                0 <= i < j < cells@.len()
                    ==> row_major_lt(#[trigger] cells@[i].0, #[trigger] cells@[j].0),
            forall|i: int|
                0 <= i < cells@.len()
                    ==> (grid.spec_cell((#[trigger] cells@[i].0).x as int, cells@[i].0.y as int)
                        matches Some(n) && cells@[i].1@ == n.id),
            forall|xx: int, yy: int|
                0 <= yy < y && 0 <= xx
                    && ((#[trigger] grid.spec_cell(xx, yy)) matches Some(_))
                    ==> exists|i: int|
                        0 <= i < cells@.len() && (#[trigger] cells@[i].0).x == xx
                            && cells@[i].0.y == yy,
        decreases grid@.len() - y,
    {
        let row_len: usize = grid.0[y].len();
        assert(row_len == grid@[y as int].len());
        proof {
            crate::ast::lemma_max_row_len_ge(grid@, y as int);
        }
        let mut x: usize = 0;
        while x < row_len
            invariant
                0 <= x <= row_len,
                0 <= y < grid@.len(),
                grid@.len() == grid.0@.len(),
                row_len == grid@[y as int].len(),
                grid.spec_fits(),
                size.x == grid.spec_width(),
                size.y == grid.spec_height(),
                row_len <= size.x,
                forall|i: int|
                    0 <= i < cells@.len() ==> ((#[trigger] cells@[i].0).y < y || (cells@[i].0.y
                        == y && cells@[i].0.x < x)) && cells@[i].0.spec_in_bounds(size),
                forall|i: int, j: int|
                    0 <= i < j < cells@.len()
                        ==> row_major_lt(#[trigger] cells@[i].0, #[trigger] cells@[j].0),
                forall|i: int|
                    0 <= i < cells@.len()
                        ==> (grid.spec_cell((#[trigger] cells@[i].0).x as int, cells@[i].0.y
                            as int) matches Some(n) && cells@[i].1@ == n.id),
                forall|xx: int, yy: int|
                    ((0 <= yy < y && 0 <= xx) || (yy == y && 0 <= xx < x))
                        && ((#[trigger] grid.spec_cell(xx, yy)) matches Some(_))
                        ==> exists|i: int|
                            0 <= i < cells@.len() && (#[trigger] cells@[i].0).x == xx
                                && cells@[i].0.y == yy,
            decreases row_len - x,
        {
            let ghost pre = cells@;
            let slot = &grid.0[y][x];
            assert(grid@[y as int][x as int] == slot.deep_view());
            match slot {
                Some(node) => {
                    let p = IndexPos::new(x as i64, y as i64);
                    cells.push((p, node.id.clone()));
                    proof {
                        assert(cells@ == pre.push((p, node.id)) || cells@.len() == pre.len() + 1);
                        assert(cells@[cells@.len() - 1].0 == p);
                        assert forall|i: int| 0 <= i < pre.len() implies cells@[i] == pre[i] by {}
                    }
                },
                None => {},
            }
            proof {
                assert forall|xx: int, yy: int|
                    ((0 <= yy < y && 0 <= xx) || (yy == y && 0 <= xx < x + 1))
                        && ((#[trigger] grid.spec_cell(xx, yy)) matches Some(_))
                    implies exists|i: int|
                        0 <= i < cells@.len() && (#[trigger] cells@[i].0).x == xx
                            && cells@[i].0.y == yy by {
                    if yy == y && xx == x {
                        assert(cells@[cells@.len() - 1].0.x == xx && cells@[cells@.len() - 1].0.y
                            == yy);
                    } else {
                        let i = choose|i: int|
                            0 <= i < pre.len() && (#[trigger] pre[i].0).x == xx && pre[i].0.y
                                == yy;
                        assert(cells@[i].0.x == xx && cells@[i].0.y == yy);
                    }
                }
            }
            x += 1;
        }
        y += 1;
    }
    let r = GridIndex { size, position_to_id: cells };
    proof {
        assert forall|p: IndexPos|
            #[trigger] r.spec_occupied(p)
                <==> (grid.spec_cell(p.x as int, p.y as int) matches Some(_)) by {
            if r.spec_occupied(p) {
                let i = choose|i: int|
                    0 <= i < r.position_to_id@.len() && r.position_to_id@[i].0 == p;
                assert(grid.spec_cell(p.x as int, p.y as int) matches Some(_));
            }
            if grid.spec_cell(p.x as int, p.y as int) matches Some(_) {
                if 0 <= p.y < grid@.len() && 0 <= p.x {
                    assert(exists|i: int|
                        0 <= i < cells@.len() && (#[trigger] cells@[i].0).x == p.x as int
                            && cells@[i].0.y == p.y as int);
                    let i = choose|i: int|
                        0 <= i < cells@.len() && (#[trigger] cells@[i].0).x == p.x as int
                            && cells@[i].0.y == p.y as int;
                    assert(cells@[i].0 == p);
                }
            }
        }
        assert forall|p: IndexPos| r.spec_occupied(p)
            implies grid.spec_cell(p.x as int, p.y as int) matches Some(n)
                && #[trigger] r.spec_id_at(p) == n.id by {
            let i = choose|i: int|
                0 <= i < r.position_to_id@.len() && r.position_to_id@[i].0 == p;
        }
    }
    r
}

} // verus!
