//! The abstract syntax tree handed to the validation pipeline — identifiers,
//! directions, destinations, raw attributes, nodes, the raw grid and the
//! document — together with its mathematical model: each syntax type has a
//! spec-level view (`NodeV`, `NodeAttributeV`, ...) over sequences and plain
//! values, and every contract of the pipeline speaks about those views.

use vstd::prelude::*;

use crate::pos::{IndexPos, GRID_LIMIT};

verus! {

/// An interned name token; equality is by name, not by occurrence.
#[derive(Debug, PartialEq, Eq)]
pub struct Identifier(pub String);

impl View for Identifier {
    type V = Seq<char>;

    open spec fn view(&self) -> Seq<char> {
        self.0@
    }
}

impl DeepView for Identifier {
    type V = Seq<char>;

    open spec fn deep_view(&self) -> Seq<char> {
        self.0@
    }
}

impl Clone for Identifier {
    fn clone(&self) -> (r: Identifier)
        ensures
            r == *self,
    {
        Identifier(self.0.clone())
    }
}

impl Identifier {
    pub fn new(name: &str) -> (r: Identifier)
        ensures
            r@ == name@,
    {
        Identifier(name.to_owned())
    }

    /// Name equality (the equality the label table and definitions use).
    pub fn same_as(&self, other: &Identifier) -> (r: bool)
        ensures
            r == (self@ == other@),
    {
        self.0 == other.0
    }

    pub fn as_str(&self) -> (r: &str)
        ensures
            r@ == self@,
    {
        self.0.as_str()
    }
}

/// One of the four cardinal directions; also the unit steps of the grid.
#[derive(Clone, Copy, Debug, PartialEq, Eq, Structural)]
pub enum Direction {
    North,
    South,
    West,
    East,
}

impl DeepView for Direction {
    type V = Direction;

    open spec fn deep_view(&self) -> Direction {
        *self
    }
}

impl Direction {
    pub open spec fn spec_reverse(self) -> Direction {
        match self {
            Direction::North => Direction::South,
            Direction::South => Direction::North,
            Direction::West => Direction::East,
            Direction::East => Direction::West,
        }
    }

    pub fn reverse(&self) -> (r: Direction)
        ensures
            r == self.spec_reverse(),
    {
        match self {
            Direction::North => Direction::South,
            Direction::South => Direction::North,
            Direction::West => Direction::East,
            Direction::East => Direction::West,
        }
    }

    pub open spec fn spec_rotate_clockwise(self) -> Direction {
        match self {
            Direction::North => Direction::East,
            Direction::South => Direction::West,
            Direction::West => Direction::North,
            Direction::East => Direction::South,
        }
    }

    pub fn rotate_clockwise(&self) -> (r: Direction)
        ensures
            r == self.spec_rotate_clockwise(),
    {
        match self {
            Direction::North => Direction::East,
            Direction::South => Direction::West,
            Direction::West => Direction::North,
            Direction::East => Direction::South,
        }
    }

    pub open spec fn spec_rotate_counter_clockwise(self) -> Direction {
        match self {
            Direction::North => Direction::West,
            Direction::South => Direction::East,
            Direction::West => Direction::South,
            Direction::East => Direction::North,
        }
    }

    pub fn rotate_counter_clockwise(&self) -> (r: Direction)
        ensures
            r == self.spec_rotate_counter_clockwise(),
    {
        match self {
            Direction::North => Direction::West,
            Direction::South => Direction::East,
            Direction::West => Direction::South,
            Direction::East => Direction::North,
        }
    }

    /// Unit step along the x axis (east is positive).
    pub open spec fn spec_dx(self) -> int {
        match self {
            Direction::North => 0,
            Direction::South => 0,
            Direction::West => -1,
            Direction::East => 1,
        }
    }

    pub fn dx(&self) -> (r: i64)
        ensures
            r as int == self.spec_dx(),
    {
        match self {
            Direction::North => 0,
            Direction::South => 0,
            Direction::West => -1,
            Direction::East => 1,
        }
    }

    /// Unit step along the y axis (south is positive).
    pub open spec fn spec_dy(self) -> int {
        match self {
            Direction::North => -1,
            Direction::South => 1,
            Direction::West => 0,
            Direction::East => 0,
        }
    }

    pub fn dy(&self) -> (r: i64)
        ensures
            r as int == self.spec_dy(),
    {
        match self {
            Direction::North => -1,
            Direction::South => 1,
            Direction::West => 0,
            Direction::East => 0,
        }
    }

    /// The direction's name, for diagnostics.
    pub open spec fn spec_name(self) -> Seq<char> {
        match self {
            Direction::North => "North"@,
            Direction::South => "South"@,
            Direction::West => "West"@,
            Direction::East => "East"@,
        }
    }

    pub fn name(&self) -> (r: &'static str)
        ensures
            r@ == self.spec_name(),
    {
        match self {
            Direction::North => "North",
            Direction::South => "South",
            Direction::West => "West",
            Direction::East => "East",
        }
    }
}

/// The fixed set of node shapes.
#[derive(Clone, Copy, Debug, PartialEq, Eq, Structural)]
pub enum NodeShape {
    Rectangle,
    Square,
    Ellipse,
    Circle,
    Diamond,
    AngledSquare,
}

impl DeepView for NodeShape {
    type V = NodeShape;

    open spec fn deep_view(&self) -> NodeShape {
        *self
    }
}

impl Default for NodeShape {
    fn default() -> (r: NodeShape)
        ensures
            r == NodeShape::Rectangle,
    {
        NodeShape::Rectangle
    }
}

/// Arrowhead style of a connection (default `End`).
#[derive(Clone, Copy, Debug, PartialEq, Eq, Structural)]
pub enum ArrowheadType {
    Neither,
    Start,
    End,
    Both,
}

impl DeepView for ArrowheadType {
    type V = ArrowheadType;

    open spec fn deep_view(&self) -> ArrowheadType {
        *self
    }
}

impl Default for ArrowheadType {
    fn default() -> (r: ArrowheadType)
        ensures
            r == ArrowheadType::End,
    {
        ArrowheadType::End
    }
}

/// The attribute kinds a node or a connection may carry; duplicate detection
/// is a cardinality check per kind.
#[derive(Clone, Copy, Debug, PartialEq, Eq, Structural)]
pub enum AttrKind {
    Text,
    Class,
    Shape,
    Connect,
    Arrowheads,
}

impl DeepView for AttrKind {
    type V = AttrKind;

    open spec fn deep_view(&self) -> AttrKind {
        *self
    }
}

impl AttrKind {
    /// The kind's key as written in the source language.
    pub open spec fn spec_name(self) -> Seq<char> {
        match self {
            AttrKind::Text => "text"@,
            AttrKind::Class => "class"@,
            AttrKind::Shape => "shape"@,
            AttrKind::Connect => "connect"@,
            AttrKind::Arrowheads => "arrowheads"@,
        }
    }

    pub fn name(&self) -> (r: &'static str)
        ensures
            r@ == self.spec_name(),
    {
        match self {
            AttrKind::Text => "text",
            AttrKind::Class => "class",
            AttrKind::Shape => "shape",
            AttrKind::Connect => "connect",
            AttrKind::Arrowheads => "arrowheads",
        }
    }
}

/// A raw, pre-resolution connection target.
#[derive(Debug, PartialEq, Eq)]
pub enum Destination {
    /// The origin node itself (`@`).
    Itself,
    /// The first node found walking in a direction (`@n`, `@s`, ...).
    Relative(Direction),
    /// The node carrying a label (`#name`).
    Label(Identifier),
}

/// The model of a `Destination`: the label is a plain character sequence.
pub enum DestinationV {
    Itself,
    Relative(Direction),
    Label(Seq<char>),
}

impl DeepView for Destination {
    type V = DestinationV;

    open spec fn deep_view(&self) -> DestinationV {
        match self {
            Destination::Itself => DestinationV::Itself,
            Destination::Relative(d) => DestinationV::Relative(*d),
            Destination::Label(id) => DestinationV::Label(id@),
        }
    }
}

impl Clone for Destination {
    fn clone(&self) -> (r: Destination)
        ensures
            r == *self,
    {
        match self {
            Destination::Itself => Destination::Itself,
            Destination::Relative(d) => Destination::Relative(*d),
            Destination::Label(id) => Destination::Label(id.clone()),
        }
    }
}

/// A raw attribute on a connection descriptor.
#[derive(Debug, PartialEq, Eq)]
pub enum ConnectionAttribute {
    Text(String),
    Class(String),
    Arrowheads(ArrowheadType),
}

/// The model of a `ConnectionAttribute`.
pub enum ConnectionAttributeV {
    Text(Seq<char>),
    Class(Seq<char>),
    Arrowheads(ArrowheadType),
}

impl ConnectionAttributeV {
    pub open spec fn kind(self) -> AttrKind {
        match self {
            ConnectionAttributeV::Text(_) => AttrKind::Text,
            ConnectionAttributeV::Class(_) => AttrKind::Class,
            ConnectionAttributeV::Arrowheads(_) => AttrKind::Arrowheads,
        }
    }
}

impl DeepView for ConnectionAttribute {
    type V = ConnectionAttributeV;

    open spec fn deep_view(&self) -> ConnectionAttributeV {
        match self {
            ConnectionAttribute::Text(s) => ConnectionAttributeV::Text(s@),
            ConnectionAttribute::Class(s) => ConnectionAttributeV::Class(s@),
            ConnectionAttribute::Arrowheads(a) => ConnectionAttributeV::Arrowheads(*a),
        }
    }
}

impl Clone for ConnectionAttribute {
    fn clone(&self) -> (r: ConnectionAttribute)
        ensures
            r == *self,
    {
        match self {
            ConnectionAttribute::Text(s) => ConnectionAttribute::Text(s.clone()),
            ConnectionAttribute::Class(s) => ConnectionAttribute::Class(s.clone()),
            ConnectionAttribute::Arrowheads(a) => ConnectionAttribute::Arrowheads(*a),
        }
    }
}

impl ConnectionAttribute {
    pub fn kind(&self) -> (r: AttrKind)
        ensures
            r == self.deep_view().kind(),
    {
        match self {
            ConnectionAttribute::Text(_) => AttrKind::Text,
            ConnectionAttribute::Class(_) => AttrKind::Class,
            ConnectionAttribute::Arrowheads(_) => AttrKind::Arrowheads,
        }
    }

    /// The attribute's key, for duplicate reports.
    pub fn as_key(&self) -> (r: &'static str)
        ensures
            r@ == self.deep_view().kind().spec_name(),
    {
        self.kind().name()
    }
}

/// A raw connection descriptor: exit side, entry side, destination and
/// attribute list.
#[derive(Debug, PartialEq, Eq)]
pub struct ConnectionDescriptor {
    pub to: Destination,
    pub sides: (Direction, Direction),
    pub attrs: Vec<ConnectionAttribute>,
}

/// The model of a `ConnectionDescriptor`.
#[verifier::ext_equal]
pub struct ConnectionDescriptorV {
    pub to: DestinationV,
    pub sides: (Direction, Direction),
    pub attrs: Seq<ConnectionAttributeV>,
}

impl DeepView for ConnectionDescriptor {
    type V = ConnectionDescriptorV;

    open spec fn deep_view(&self) -> ConnectionDescriptorV {
        ConnectionDescriptorV {
            to: self.to.deep_view(),
            sides: self.sides,
            attrs: self.attrs.deep_view(),
        }
    }
}

impl Clone for ConnectionDescriptor {
    fn clone(&self) -> (r: ConnectionDescriptor)
        ensures
            r.deep_view() == self.deep_view(),
    {
        let attrs = self.attrs.clone();
        let to = self.to.clone();
        proof {
            assert(attrs.deep_view() =~= self.attrs.deep_view());
            assert((ConnectionDescriptor { to: to, sides: self.sides, attrs: attrs }).deep_view()
                =~= self.deep_view());
        }
        ConnectionDescriptor { to, sides: self.sides, attrs }
    }
}

/// A raw attribute on a node or on a definition.
#[derive(Debug, PartialEq, Eq)]
pub enum NodeAttribute {
    Text(String),
    Class(String),
    Shape(NodeShape),
    Connect(Vec<ConnectionDescriptor>),
}

/// The model of a `NodeAttribute`.
pub enum NodeAttributeV {
    Text(Seq<char>),
    Class(Seq<char>),
    Shape(NodeShape),
    Connect(Seq<ConnectionDescriptorV>),
}

impl NodeAttributeV {
    pub open spec fn kind(self) -> AttrKind {
        match self {
            NodeAttributeV::Text(_) => AttrKind::Text,
            NodeAttributeV::Class(_) => AttrKind::Class,
            NodeAttributeV::Shape(_) => AttrKind::Shape,
            NodeAttributeV::Connect(_) => AttrKind::Connect,
        }
    }
}

impl DeepView for NodeAttribute {
    type V = NodeAttributeV;

    open spec fn deep_view(&self) -> NodeAttributeV {
        match self {
            NodeAttribute::Text(s) => NodeAttributeV::Text(s@),
            NodeAttribute::Class(s) => NodeAttributeV::Class(s@),
            NodeAttribute::Shape(sh) => NodeAttributeV::Shape(*sh),
            NodeAttribute::Connect(ds) => NodeAttributeV::Connect(ds.deep_view()),
        }
    }
}

impl Clone for NodeAttribute {
    fn clone(&self) -> (r: NodeAttribute)
        ensures
            r.deep_view() == self.deep_view(),
    {
        match self {
            NodeAttribute::Text(s) => NodeAttribute::Text(s.clone()),
            NodeAttribute::Class(s) => NodeAttribute::Class(s.clone()),
            NodeAttribute::Shape(sh) => NodeAttribute::Shape(*sh),
            NodeAttribute::Connect(ds) => {
                let ds2 = ds.clone();
                proof {
                    assert(ds2.deep_view() =~= ds.deep_view());
                }
                NodeAttribute::Connect(ds2)
            },
        }
    }
}

impl NodeAttribute {
    pub fn kind(&self) -> (r: AttrKind)
        ensures
            r == self.deep_view().kind(),
    {
        match self {
            NodeAttribute::Text(_) => AttrKind::Text,
            NodeAttribute::Class(_) => AttrKind::Class,
            NodeAttribute::Shape(_) => AttrKind::Shape,
            NodeAttribute::Connect(_) => AttrKind::Connect,
        }
    }

    /// The attribute's key, for duplicate reports.
    pub fn as_key(&self) -> (r: &'static str)
        ensures
            r@ == self.deep_view().kind().spec_name(),
    {
        self.kind().name()
    }
}

/// One grid cell's node: its identifier, optional label and raw attributes.
#[derive(Debug, PartialEq, Eq)]
pub struct Node {
    pub id: Identifier,
    pub label: Option<Identifier>,
    pub attrs: Vec<NodeAttribute>,
}

/// The model of a `Node`.
#[verifier::ext_equal]
pub struct NodeV {
    pub id: Seq<char>,
    pub label: Option<Seq<char>>,
    pub attrs: Seq<NodeAttributeV>,
}

impl DeepView for Node {
    type V = NodeV;

    open spec fn deep_view(&self) -> NodeV {
        NodeV { id: self.id@, label: self.label.deep_view(), attrs: self.attrs.deep_view() }
    }
}

impl Clone for Node {
    fn clone(&self) -> (r: Node)
        ensures
            r.deep_view() == self.deep_view(),
    {
        let attrs = self.attrs.clone();
        let label = match &self.label {
            Some(l) => Some(l.clone()),
            None => None,
        };
        let id = self.id.clone();
        proof {
            assert(attrs.deep_view() =~= self.attrs.deep_view());
            assert((Node { id: id, label: label, attrs: attrs }).deep_view() =~= self.deep_view());
        }
        Node { id, label, attrs }
    }
}

/// The raw grid: rows of optional node slots.
#[derive(Debug, PartialEq, Eq)]
pub struct Grid(pub Vec<Vec<Option<Node>>>);

/// The model of the raw grid: rows of optional node models.
pub type GridV = Seq<Seq<Option<NodeV>>>;

impl View for Grid {
    type V = GridV;

    open spec fn view(&self) -> GridV {
        self.0.deep_view()
    }
}

/// The length of the longest row.
pub open spec fn spec_max_row_len(rows: GridV) -> int
    decreases rows.len(),
{
    if rows.len() == 0 {
        0
    } else {
        let rest = spec_max_row_len(rows.drop_last());
        let last = rows.last().len() as int;
        if last > rest {
            last
        } else {
            rest
        }
    }
}

/// Every row is no longer than the longest row.
pub proof fn lemma_max_row_len_ge(rows: GridV, i: int)
    requires
        0 <= i < rows.len(),
    ensures
        spec_max_row_len(rows) >= rows[i].len(),
    decreases rows.len(),
{
    if i == rows.len() - 1 {
    } else {
        lemma_max_row_len_ge(rows.drop_last(), i);
    }
}

/// A bound on every row bounds the longest row.
pub proof fn lemma_max_row_len_le(rows: GridV, bound: int)
    requires
        bound >= 0,
        forall|j: int| 0 <= j < rows.len() ==> #[trigger] rows[j].len() <= bound,
    ensures
        spec_max_row_len(rows) <= bound,
    decreases rows.len(),
{
    if rows.len() > 0 {
        lemma_max_row_len_le(rows.drop_last(), bound);
    }
}

impl Grid {
    pub open spec fn spec_height(self) -> int {
        self@.len() as int
    }

    /// The width of the widest row.
    pub open spec fn spec_width(self) -> int {
        spec_max_row_len(self@)
    }

    /// The slot at cell coordinates `(x, y)`; absent outside every row.
    pub open spec fn spec_cell(self, x: int, y: int) -> Option<NodeV> {
        if 0 <= y < self@.len() && 0 <= x < self@[y].len() {
            self@[y][x]
        } else {
            None
        }
    }

    /// Whether the grid's dimensions stay within `GRID_LIMIT`.
    pub open spec fn spec_fits(self) -> bool {
        self.spec_height() <= GRID_LIMIT && self.spec_width() <= GRID_LIMIT
    }

    pub fn fits(&self) -> (r: bool)
        ensures
            r == self.spec_fits(),
    {
        if self.0.len() > GRID_LIMIT as usize {
            assert(self.spec_height() > GRID_LIMIT);
            return false;
        }
        let mut y: usize = 0;
        while y < self.0.len()
            invariant
                y <= self@.len(),
                self@.len() == self.0@.len(),
                self@.len() <= GRID_LIMIT,
                forall|j: int| 0 <= j < y ==> #[trigger] self@[j].len() <= GRID_LIMIT,
            decreases self@.len() - y,
        {
            if self.0[y].len() > GRID_LIMIT as usize {
                assert(self@[y as int].len() > GRID_LIMIT);
                assert(self.spec_width() >= self@[y as int].len()) by {
                    lemma_max_row_len_ge(self@, y as int);
                }
                return false;
            }
            y += 1;
        }
        assert(self.spec_width() <= GRID_LIMIT) by {
            lemma_max_row_len_le(self@, GRID_LIMIT as int);
        }
        true
    }

    /// The grid's size as a position: `(width, height)`.
    pub fn size(&self) -> (r: IndexPos)
        requires
            self.spec_fits(),
        ensures
            r.x == self.spec_width(),
            r.y == self.spec_height(),
    {
        let ghost rows: GridV = self@;
        let mut width: i64 = 0;
        let mut y: usize = 0;
        while y < self.0.len()
            invariant
                y <= rows.len(),
                rows == self@,
                rows.len() == self.0@.len(),
                self.spec_fits(),
                width == spec_max_row_len(rows.take(y as int)),
                0 <= width <= GRID_LIMIT,
            decreases rows.len() - y,
        {
            proof {
                assert(rows.take(y as int + 1).drop_last() =~= rows.take(y as int));
                assert(rows.take(y as int + 1).last() == rows[y as int]);
                assert(rows[y as int].len() <= GRID_LIMIT) by {
                    lemma_max_row_len_ge(rows, y as int);
                }
            }
            let row_len: usize = self.0[y].len();
            assert(row_len == rows[y as int].len());
            if row_len as i64 > width {
                width = row_len as i64;
            }
            y += 1;
        }
        proof {
            assert(rows.take(rows.len() as int) =~= rows);
        }
        IndexPos { x: width, y: self.0.len() as i64 }
    }
}

/// The ordered list of named definitions of a document.
pub type Definitions = Vec<(Identifier, Vec<NodeAttribute>)>;

/// The model of the definition list.
pub type DefinitionsV = Seq<(Seq<char>, Seq<NodeAttributeV>)>;

/// A parsed document: the raw grid and the (possibly empty) definition list.
#[derive(Debug, PartialEq, Eq)]
pub struct Document {
    pub grid: Grid,
    pub definitions: Definitions,
}

} // verus!
