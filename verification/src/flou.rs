//! The merge-and-validate pipeline: raw attribute lists become typed
//! attribute records, definitions are fanned out over the grid, field-level
//! merge is applied, labels are collected, and every connection destination
//! is resolved.  Each phase scans the whole document and either succeeds
//! completely or reports every offender of its error class.

use vstd::prelude::*;

use crate::ast::{
    AttrKind, ArrowheadType, ConnectionAttribute, ConnectionAttributeV, ConnectionDescriptor,
    ConnectionDescriptorV, Destination, DestinationV, Direction, Identifier, NodeAttribute,
    NodeAttributeV, NodeShape,
};
use crate::pos::IndexPos;

verus! {

/// Resolved attributes of a node.
#[derive(Debug, PartialEq, Eq)]
pub struct NodeAttributes {
    pub text: Option<String>,
    pub class: Option<String>,
    pub shape: Option<NodeShape>,
}

/// The model of `NodeAttributes`.
pub struct NodeAttributesV {
    pub text: Option<Seq<char>>,
    pub class: Option<Seq<char>>,
    pub shape: Option<NodeShape>,
}

impl DeepView for NodeAttributes {
    type V = NodeAttributesV;

    open spec fn deep_view(&self) -> NodeAttributesV {
        NodeAttributesV {
            text: self.text.deep_view(),
            class: self.class.deep_view(),
            shape: self.shape,
        }
    }
}

impl Clone for NodeAttributes {
    fn clone(&self) -> (r: NodeAttributes)
        ensures
            r == *self,
    {
        NodeAttributes {
            text: match &self.text {
                Some(t) => Some(t.clone()),
                None => None,
            },
            class: match &self.class {
                Some(c) => Some(c.clone()),
                None => None,
            },
            shape: self.shape,
        }
    }
}

impl NodeAttributes {
    /// The empty record: no attribute set.
    pub fn empty() -> (r: NodeAttributes)
        ensures
            r.text is None,
            r.class is None,
            r.shape is None,
    {
        NodeAttributes { text: None, class: None, shape: None }
    }

    /// Field-level merge: a field of `new` wins where present, else the
    /// field of `old` is kept.
    pub open spec fn spec_overwrite(old: NodeAttributesV, new: NodeAttributesV) -> NodeAttributesV {
        NodeAttributesV {
            text: if new.text is Some {
                new.text
            } else {
                old.text
            },
            class: if new.class is Some {
                new.class
            } else {
                old.class
            },
            shape: if new.shape is Some {
                new.shape
            } else {
                old.shape
            },
        }
    }

    /// Merges two records field by field; `new` wins where it sets a field.
    pub fn overwrite(old: NodeAttributes, new: NodeAttributes) -> (r: NodeAttributes)
        ensures
            r.deep_view() == NodeAttributes::spec_overwrite(old.deep_view(), new.deep_view()),
    {
        NodeAttributes {
            text: match new.text {
                Some(t) => Some(t),
                None => old.text,
            },
            class: match new.class {
                Some(c) => Some(c),
                None => old.class,
            },
            shape: match new.shape {
                Some(s) => Some(s),
                None => old.shape,
            },
        }
    }
}

/// Resolved attributes of a connection.
#[derive(Debug, PartialEq, Eq)]
pub struct ConnectionAttributes {
    pub text: Option<String>,
    pub class: Option<String>,
    pub arrowheads: Option<ArrowheadType>,
}

/// The model of `ConnectionAttributes`.
pub struct ConnectionAttributesV {
    pub text: Option<Seq<char>>,
    pub class: Option<Seq<char>>,
    pub arrowheads: Option<ArrowheadType>,
}

impl DeepView for ConnectionAttributes {
    type V = ConnectionAttributesV;

    open spec fn deep_view(&self) -> ConnectionAttributesV {
        ConnectionAttributesV {
            text: self.text.deep_view(),
            class: self.class.deep_view(),
            arrowheads: self.arrowheads,
        }
    }
}

impl Clone for ConnectionAttributes {
    fn clone(&self) -> (r: ConnectionAttributes)
        ensures
            r == *self,
    {
        ConnectionAttributes {
            text: match &self.text {
                Some(t) => Some(t.clone()),
                None => None,
            },
            class: match &self.class {
                Some(c) => Some(c.clone()),
                None => None,
            },
            arrowheads: self.arrowheads,
        }
    }
}

impl ConnectionAttributes {
    /// The empty record: no attribute set.
    pub fn empty() -> (r: ConnectionAttributes)
        ensures
            r.text is None,
            r.class is None,
            r.arrowheads is None,
    {
        ConnectionAttributes { text: None, class: None, arrowheads: None }
    }
}

/// A connection whose destination is not resolved yet.
#[derive(Debug, PartialEq, Eq)]
pub struct UnresolvedConnection {
    pub to: Destination,
    pub sides: (Direction, Direction),
    pub attrs: ConnectionAttributes,
}

/// The model of an `UnresolvedConnection`.
pub struct UnresolvedConnectionV {
    pub to: DestinationV,
    pub sides: (Direction, Direction),
    pub attrs: ConnectionAttributesV,
}

impl DeepView for UnresolvedConnection {
    type V = UnresolvedConnectionV;

    open spec fn deep_view(&self) -> UnresolvedConnectionV {
        UnresolvedConnectionV {
            to: self.to.deep_view(),
            sides: self.sides,
            attrs: self.attrs.deep_view(),
        }
    }
}

impl Clone for UnresolvedConnection {
    fn clone(&self) -> (r: UnresolvedConnection)
        ensures
            r == *self,
    {
        UnresolvedConnection {
            to: self.to.clone(),
            sides: self.sides,
            attrs: self.attrs.clone(),
        }
    }
}

/// A fully resolved connection between two node edges.
#[derive(Debug, PartialEq, Eq)]
pub struct Connection {
    pub from: (IndexPos, Direction),
    pub to: (IndexPos, Direction),
    pub attrs: ConnectionAttributes,
}

/// The model of a `Connection`.
pub struct ConnectionV {
    pub from: (IndexPos, Direction),
    pub to: (IndexPos, Direction),
    pub attrs: ConnectionAttributesV,
}

impl DeepView for Connection {
    type V = ConnectionV;

    open spec fn deep_view(&self) -> ConnectionV {
        ConnectionV { from: self.from, to: self.to, attrs: self.attrs.deep_view() }
    }
}

impl Clone for Connection {
    fn clone(&self) -> (r: Connection)
        ensures
            r == *self,
    {
        Connection { from: self.from, to: self.to, attrs: self.attrs.clone() }
    }
}

// ---------------------------------------------------------------------------
// Attribute resolution: cardinality checks per kind and first-set values.
// ---------------------------------------------------------------------------

/// How many attributes of the list have the given kind.
pub open spec fn node_kind_count(s: Seq<NodeAttributeV>, k: AttrKind) -> int
    decreases s.len(),
{
    if s.len() == 0 {
        0
    } else {
        node_kind_count(s.drop_last(), k) + if s.last().kind() == k {
            1int
        } else {
            0int
        }
    }
}

/// Kind counts are never negative.
pub proof fn lemma_node_kind_count_nonneg(s: Seq<NodeAttributeV>, k: AttrKind)
    ensures
        node_kind_count(s, k) >= 0,
    decreases s.len(),
{
    if s.len() > 0 {
        lemma_node_kind_count_nonneg(s.drop_last(), k);
    }
}

/// Whether some attribute kind occurs more than once.
pub open spec fn node_has_dup(s: Seq<NodeAttributeV>) -> bool {
    exists|k: AttrKind| node_kind_count(s, k) >= 2
}

/// The duplicated kinds, each recorded at its second occurrence.
pub open spec fn node_dup_kinds(s: Seq<NodeAttributeV>) -> Seq<AttrKind>
    decreases s.len(),
{
    if s.len() == 0 {
        Seq::empty()
    } else {
        let rest = node_dup_kinds(s.drop_last());
        if node_kind_count(s.drop_last(), s.last().kind()) == 1 {
            rest.push(s.last().kind())
        } else {
            rest
        }
    }
}

/// The first `text` value of the list, if any.
pub open spec fn first_text(s: Seq<NodeAttributeV>) -> Option<Seq<char>>
    decreases s.len(),
{
    if s.len() == 0 {
        None
    } else {
        let rest = first_text(s.drop_last());
        if rest is Some {
            rest
        } else {
            match s.last() {
                NodeAttributeV::Text(t) => Some(t),
                _ => None,
            }
        }
    }
}

/// The first `class` value of the list, if any.
pub open spec fn first_class(s: Seq<NodeAttributeV>) -> Option<Seq<char>>
    decreases s.len(),
{
    if s.len() == 0 {
        None
    } else {
        let rest = first_class(s.drop_last());
        if rest is Some {
            rest
        } else {
            match s.last() {
                NodeAttributeV::Class(c) => Some(c),
                _ => None,
            }
        }
    }
}

/// The first `shape` value of the list, if any.
pub open spec fn first_shape(s: Seq<NodeAttributeV>) -> Option<NodeShape>
    decreases s.len(),
{
    if s.len() == 0 {
        None
    } else {
        let rest = first_shape(s.drop_last());
        if rest is Some {
            rest
        } else {
            match s.last() {
                NodeAttributeV::Shape(sh) => Some(sh),
                _ => None,
            }
        }
    }
}

/// The first `connect` list of the list of attributes, if any.
pub open spec fn first_connect(s: Seq<NodeAttributeV>) -> Option<Seq<ConnectionDescriptorV>>
    decreases s.len(),
{
    if s.len() == 0 {
        None
    } else {
        let rest = first_connect(s.drop_last());
        if rest is Some {
            rest
        } else {
            match s.last() {
                NodeAttributeV::Connect(ds) => Some(ds),
                _ => None,
            }
        }
    }
}

/// The node attribute record that resolution produces.
pub open spec fn resolved_node_attrs(s: Seq<NodeAttributeV>) -> NodeAttributesV {
    NodeAttributesV { text: first_text(s), class: first_class(s), shape: first_shape(s) }
}

/// Adds a kind to a duplicate set unless it is already there.
pub fn kinds_insert(v: &mut Vec<AttrKind>, k: AttrKind)
    requires
        old(v)@.no_duplicates(),
    ensures
        final(v)@.no_duplicates(),
        forall|x: AttrKind| final(v)@.contains(x) <==> old(v)@.contains(x) || x == k,
        final(v)@ == if old(v)@.contains(k) {
            old(v)@
        } else {
            old(v)@.push(k)
        },
{
    if !kinds_contains(v, k) {
        let ghost pre = v@;
        v.push(k);
        proof {
            assert forall|x: AttrKind| v@.contains(x) <==> pre.contains(x) || x == k by {
                if pre.contains(x) {
                    let i = choose|i: int| 0 <= i < pre.len() && pre[i] == x;
                    assert(v@[i] == x);
                }
                if x == k {
                    assert(v@[v@.len() - 1] == x);
                }
                if v@.contains(x) {
                    let i = choose|i: int| 0 <= i < v@.len() && v@[i] == x;
                    if i < pre.len() {
                        assert(pre[i] == x);
                    }
                }
            }
            assert(v@.no_duplicates()) by {
                assert(forall|i: int| 0 <= i < pre.len() ==> v@[i] == pre[i]);
                assert(v@[v@.len() - 1] == k);
                assert(forall|i: int| 0 <= i < pre.len() ==> pre[i] != k) by {
                    assert(!pre.contains(k));
                }
            }
        }
    } else {
        proof {
            assert forall|x: AttrKind| v@.contains(x) <==> old(v)@.contains(x) || x == k by {}
        }
    }
}

/// Membership test on a list of attribute kinds.
pub fn kinds_contains(v: &Vec<AttrKind>, k: AttrKind) -> (r: bool)
    ensures
        r == v@.contains(k),
{
    let mut i: usize = 0;
    while i < v.len()
        invariant
            0 <= i <= v@.len(),
            forall|j: int| 0 <= j < i ==> v@[j] != k,
        decreases v@.len() - i,
    {
        if v[i] == k {
            assert(v@[i as int] == k);
            return true;
        }
        i += 1;
    }
    false
}

/// Tries to assemble `NodeAttributes` from the vector of individual
/// attributes.  The `connect` attribute is separated from the rest so that
/// an independent vector of connections can be created later down the line.
/// An attribute kind that occurs more than once is a duplicate; the full set
/// of duplicated kinds is the error.
pub fn parse_node_attributes(attributes: Vec<NodeAttribute>) -> (r: Result<
    (NodeAttributes, Option<Vec<ConnectionDescriptor>>),
    Vec<AttrKind>,
>)
    ensures
        r is Ok <==> !node_has_dup(attributes.deep_view()),
        r matches Ok(ok) ==> ok.0.deep_view() == resolved_node_attrs(attributes.deep_view())
            && ok.1.deep_view() == first_connect(attributes.deep_view()),
        r matches Err(d) ==> (forall|k: AttrKind|
            d@.contains(k) <==> node_kind_count(attributes.deep_view(), k) >= 2)
            && d@.no_duplicates() && d@ == node_dup_kinds(attributes.deep_view()),
{
    let ghost s = attributes.deep_view();
    let mut res = NodeAttributes::empty();
    let mut conn: Option<Vec<ConnectionDescriptor>> = None;
    let mut duplicates: Vec<AttrKind> = Vec::new();
    let mut i: usize = 0;
    while i < attributes.len()
        invariant
            0 <= i <= s.len(),
            s == attributes.deep_view(),
            s.len() == attributes@.len(),
            forall|j: int| 0 <= j < s.len() ==> s[j] == #[trigger] attributes@[j].deep_view(),
            res.deep_view().text == first_text(s.take(i as int)),
            res.deep_view().class == first_class(s.take(i as int)),
            res.deep_view().shape == first_shape(s.take(i as int)),
            conn.deep_view() == first_connect(s.take(i as int)),
            res.text is Some <==> node_kind_count(s.take(i as int), AttrKind::Text) >= 1,
            res.class is Some <==> node_kind_count(s.take(i as int), AttrKind::Class) >= 1,
            res.shape is Some <==> node_kind_count(s.take(i as int), AttrKind::Shape) >= 1,
            conn is Some <==> node_kind_count(s.take(i as int), AttrKind::Connect) >= 1,
            forall|k: AttrKind|
                duplicates@.contains(k) <==> node_kind_count(s.take(i as int), k) >= 2,
            duplicates@.no_duplicates(),
            duplicates@ == node_dup_kinds(s.take(i as int)),
            node_kind_count(s.take(i as int), AttrKind::Arrowheads) == 0,
        decreases s.len() - i,
    {
        proof {
            assert(s.take(i as int + 1).drop_last() =~= s.take(i as int));
            assert(s.take(i as int + 1).last() == s[i as int]);
        }
        let ghost pre = s.take(i as int);
        let attribute = &attributes[i];
        match attribute {
            NodeAttribute::Text(t) => {
                if res.text.is_none() {
                    res.text = Some(t.clone());
                } else {
                    kinds_insert(&mut duplicates, AttrKind::Text);
                }
            },
            NodeAttribute::Class(c) => {
                if res.class.is_none() {
                    res.class = Some(c.clone());
                } else {
                    kinds_insert(&mut duplicates, AttrKind::Class);
                }
            },
            NodeAttribute::Shape(sh) => {
                if res.shape.is_none() {
                    res.shape = Some(*sh);
                } else {
                    kinds_insert(&mut duplicates, AttrKind::Shape);
                }
            },
            NodeAttribute::Connect(ds) => {
                if conn.is_none() {
                    let ds2 = ds.clone();
                    proof {
                        assert(ds2.deep_view() =~= ds.deep_view());
                    }
                    conn = Some(ds2);
                } else {
                    kinds_insert(&mut duplicates, AttrKind::Connect);
                }
            },
        }
        proof {
            assert forall|k: AttrKind|
                node_kind_count(s.take(i as int + 1), k) == node_kind_count(pre, k) + (if s[
                    i as int
                ].kind() == k {
                    1int
                } else {
                    0int
                }) by {
                assert(s.take(i as int + 1).drop_last() == pre);
            }
            assert forall|k: AttrKind| node_kind_count(pre, k) >= 0 by {
                lemma_node_kind_count_nonneg(pre, k);
            }
        }
        i += 1;
    }
    proof {
        assert(s.take(s.len() as int) =~= s);
    }
    if duplicates.len() == 0 {
        proof {
            if node_has_dup(s) {
                let k = choose|k: AttrKind| node_kind_count(s, k) >= 2;
                assert(duplicates@.contains(k));
            }
        }
        Ok((res, conn))
    } else {
        proof {
            let k = duplicates@[0];
            assert(duplicates@.contains(k));
            assert(node_kind_count(s, k) >= 2);
        }
        Err(duplicates)
    }
}

// ---------------------------------------------------------------------------
// Connection attribute resolution.
// ---------------------------------------------------------------------------

/// How many attributes of the list have the given kind.
pub open spec fn conn_kind_count(s: Seq<ConnectionAttributeV>, k: AttrKind) -> int
    decreases s.len(),
{
    if s.len() == 0 {
        0
    } else {
        conn_kind_count(s.drop_last(), k) + if s.last().kind() == k {
            1int
        } else {
            0int
        }
    }
}

/// Kind counts are never negative.
pub proof fn lemma_conn_kind_count_nonneg(s: Seq<ConnectionAttributeV>, k: AttrKind)
    ensures
        conn_kind_count(s, k) >= 0,
    decreases s.len(),
{
    if s.len() > 0 {
        lemma_conn_kind_count_nonneg(s.drop_last(), k);
    }
}

/// Whether some attribute kind occurs more than once.
pub open spec fn conn_has_dup(s: Seq<ConnectionAttributeV>) -> bool {
    exists|k: AttrKind| conn_kind_count(s, k) >= 2
}

/// The duplicated kinds, each recorded at its second occurrence.
pub open spec fn conn_dup_kinds(s: Seq<ConnectionAttributeV>) -> Seq<AttrKind>
    decreases s.len(),
{
    if s.len() == 0 {
        Seq::empty()
    } else {
        let rest = conn_dup_kinds(s.drop_last());
        if conn_kind_count(s.drop_last(), s.last().kind()) == 1 {
            rest.push(s.last().kind())
        } else {
            rest
        }
    }
}

/// The first `text` value of the list, if any.
pub open spec fn cfirst_text(s: Seq<ConnectionAttributeV>) -> Option<Seq<char>>
    decreases s.len(),
{
    if s.len() == 0 {
        None
    } else {
        let rest = cfirst_text(s.drop_last());
        if rest is Some {
            rest
        } else {
            match s.last() {
                ConnectionAttributeV::Text(t) => Some(t),
                _ => None,
            }
        }
    }
}

/// The first `class` value of the list, if any.
pub open spec fn cfirst_class(s: Seq<ConnectionAttributeV>) -> Option<Seq<char>>
    decreases s.len(),
{
    if s.len() == 0 {
        None
    } else {
        let rest = cfirst_class(s.drop_last());
        if rest is Some {
            rest
        } else {
            match s.last() {
                ConnectionAttributeV::Class(c) => Some(c),
                _ => None,
            }
        }
    }
}

/// The first `arrowheads` value of the list, if any.
pub open spec fn cfirst_arrowheads(s: Seq<ConnectionAttributeV>) -> Option<ArrowheadType>
    decreases s.len(),
{
    if s.len() == 0 {
        None
    } else {
        let rest = cfirst_arrowheads(s.drop_last());
        if rest is Some {
            rest
        } else {
            match s.last() {
                ConnectionAttributeV::Arrowheads(a) => Some(a),
                _ => None,
            }
        }
    }
}

/// The connection attribute record that resolution produces.
pub open spec fn resolved_conn_attrs(s: Seq<ConnectionAttributeV>) -> ConnectionAttributesV {
    ConnectionAttributesV {
        text: cfirst_text(s),
        class: cfirst_class(s),
        arrowheads: cfirst_arrowheads(s),
    }
}

impl ConnectionAttributes {
    /// Tries to assemble `ConnectionAttributes` from the raw attribute list;
    /// the set of duplicated kinds is the error.
    pub fn try_from_attrs(attributes: Vec<ConnectionAttribute>) -> (r: Result<
        ConnectionAttributes,
        Vec<AttrKind>,
    >)
        ensures
            r is Ok <==> !conn_has_dup(attributes.deep_view()),
            r matches Ok(ok) ==> ok.deep_view() == resolved_conn_attrs(attributes.deep_view()),
            r matches Err(d) ==> (forall|k: AttrKind|
                d@.contains(k) <==> conn_kind_count(attributes.deep_view(), k) >= 2)
                && d@.no_duplicates() && d@ == conn_dup_kinds(attributes.deep_view()),
    {
        let ghost s = attributes.deep_view();
        let mut res = ConnectionAttributes::empty();
        let mut duplicates: Vec<AttrKind> = Vec::new();
        let mut i: usize = 0;
        while i < attributes.len()
            invariant
                0 <= i <= s.len(),
                s == attributes.deep_view(),
                s.len() == attributes@.len(),
                forall|j: int| 0 <= j < s.len() ==> s[j] == #[trigger] attributes@[j].deep_view(),
                res.deep_view().text == cfirst_text(s.take(i as int)),
                res.deep_view().class == cfirst_class(s.take(i as int)),
                res.deep_view().arrowheads == cfirst_arrowheads(s.take(i as int)),
                res.text is Some <==> conn_kind_count(s.take(i as int), AttrKind::Text) >= 1,
                res.class is Some <==> conn_kind_count(s.take(i as int), AttrKind::Class) >= 1,
                res.arrowheads is Some <==> conn_kind_count(s.take(i as int), AttrKind::Arrowheads)
                    >= 1,
                forall|k: AttrKind|
                    duplicates@.contains(k) <==> conn_kind_count(s.take(i as int), k) >= 2,
                duplicates@.no_duplicates(),
                duplicates@ == conn_dup_kinds(s.take(i as int)),
                conn_kind_count(s.take(i as int), AttrKind::Shape) == 0,
                conn_kind_count(s.take(i as int), AttrKind::Connect) == 0,
            decreases s.len() - i,
        {
            proof {
                assert(s.take(i as int + 1).drop_last() =~= s.take(i as int));
                assert(s.take(i as int + 1).last() == s[i as int]);
            }
            let ghost pre = s.take(i as int);
            let attribute = &attributes[i];
            match attribute {
                ConnectionAttribute::Text(t) => {
                    if res.text.is_none() {
                        res.text = Some(t.clone());
                    } else {
                        kinds_insert(&mut duplicates, AttrKind::Text);
                    }
                },
                ConnectionAttribute::Class(c) => {
                    if res.class.is_none() {
                        res.class = Some(c.clone());
                    } else {
                        kinds_insert(&mut duplicates, AttrKind::Class);
                    }
                },
                ConnectionAttribute::Arrowheads(a) => {
                    if res.arrowheads.is_none() {
                        res.arrowheads = Some(*a);
                    } else {
                        kinds_insert(&mut duplicates, AttrKind::Arrowheads);
                    }
                },
            }
            proof {
                assert forall|k: AttrKind|
                    conn_kind_count(s.take(i as int + 1), k) == conn_kind_count(pre, k) + (if s[
                        i as int
                    ].kind() == k {
                        1int
                    } else {
                        0int
                    }) by {
                    assert(s.take(i as int + 1).drop_last() == pre);
                }
                assert forall|k: AttrKind| conn_kind_count(pre, k) >= 0 by {
                    lemma_conn_kind_count_nonneg(pre, k);
                }
            }
            i += 1;
        }
        proof {
            assert(s.take(s.len() as int) =~= s);
        }
        if duplicates.len() == 0 {
            proof {
                if conn_has_dup(s) {
                    let k = choose|k: AttrKind| conn_kind_count(s, k) >= 2;
                    assert(duplicates@.contains(k));
                }
            }
            Ok(res)
        } else {
            proof {
                let k = duplicates@[0];
                assert(duplicates@.contains(k));
                assert(conn_kind_count(s, k) >= 2);
            }
            Err(duplicates)
        }
    }
}

} // verus!

verus! {

// ---------------------------------------------------------------------------
// The grid's occupied cells, flattened row-major.
// ---------------------------------------------------------------------------

/// The occupied cells of a grid, row-major, with their nodes.
pub type GridCells = Vec<(IndexPos, crate::ast::Node)>;

/// Flattens the raw grid into its occupied cells in row-major order.
pub fn grid_cells(grid: &crate::ast::Grid) -> (r: GridCells)
    requires
        grid.spec_fits(),
    ensures
        forall|i: int|
            0 <= i < r.deep_view().len() ==> (#[trigger] r.deep_view()[i]).0.spec_in_bounds(
                IndexPos { x: grid.spec_width() as i64, y: grid.spec_height() as i64 },
            ) && grid.spec_cell(r.deep_view()[i].0.x as int, r.deep_view()[i].0.y as int)
                == Some(r.deep_view()[i].1),
        forall|i: int, j: int|
            0 <= i < j < r.deep_view().len() ==> crate::grid::row_major_lt(
                (#[trigger] r.deep_view()[i]).0,
                (#[trigger] r.deep_view()[j]).0,
            ),
        forall|xx: int, yy: int|
            ((#[trigger] grid.spec_cell(xx, yy)) matches Some(_)) ==> exists|i: int|
                0 <= i < r.deep_view().len() && (#[trigger] r.deep_view()[i]).0.x == xx
                    && r.deep_view()[i].0.y == yy,
        r.deep_view() == cells_of_grid(grid@),
{
    let ghost bound = IndexPos { x: grid.spec_width() as i64, y: grid.spec_height() as i64 };
    let mut cells: GridCells = Vec::new();
    let mut y: usize = 0;
    while y < grid.0.len()
        invariant
            0 <= y <= grid@.len(),
            grid@.len() == grid.0@.len(),
            grid.spec_fits(),
            bound == (IndexPos { x: grid.spec_width() as i64, y: grid.spec_height() as i64 }),
            forall|i: int|
                0 <= i < cells.deep_view().len() ==> (#[trigger] cells.deep_view()[i]).0.y < y
                    && cells.deep_view()[i].0.spec_in_bounds(bound),
            forall|i: int, j: int|
                0 <= i < j < cells.deep_view().len() ==> crate::grid::row_major_lt(
                    (#[trigger] cells.deep_view()[i]).0,
                    (#[trigger] cells.deep_view()[j]).0,
                ),
            forall|i: int|
                0 <= i < cells.deep_view().len() ==> grid.spec_cell(
                    (#[trigger] cells.deep_view()[i]).0.x as int,
                    cells.deep_view()[i].0.y as int,
                ) == Some(cells.deep_view()[i].1),
            forall|xx: int, yy: int|
                0 <= yy < y && 0 <= xx && ((#[trigger] grid.spec_cell(xx, yy)) matches Some(_))
                    ==> exists|i: int|
                        0 <= i < cells.deep_view().len() && (#[trigger] cells.deep_view()[i]).0.x
                            == xx && cells.deep_view()[i].0.y == yy,
            cells.deep_view() == cells_of_grid(grid@.take(y as int)),
        decreases grid@.len() - y,
    {
        proof {
            assert(grid@.take(y as int + 1).drop_last() =~= grid@.take(y as int));
            assert(grid@.take(y as int + 1).last() == grid@[y as int]);
        }
        let row_len: usize = grid.0[y].len();
        assert(row_len == grid@[y as int].len());
        proof {
            crate::ast::lemma_max_row_len_ge(grid@, y as int);
        }
        let mut x: usize = 0;
        while x < row_len
            invariant
                0 <= x <= row_len,
                0 <= y < grid@.len(),
                grid@.len() == grid.0@.len(),
                row_len == grid@[y as int].len(),
                grid.spec_fits(),
                row_len <= grid.spec_width(),
                bound == (IndexPos { x: grid.spec_width() as i64, y: grid.spec_height() as i64 }),
                forall|i: int|
                    0 <= i < cells.deep_view().len() ==> ((#[trigger] cells.deep_view()[i]).0.y
                        < y || (cells.deep_view()[i].0.y == y && cells.deep_view()[i].0.x < x))
                        && cells.deep_view()[i].0.spec_in_bounds(bound),
                forall|i: int, j: int|
                    0 <= i < j < cells.deep_view().len() ==> crate::grid::row_major_lt(
                        (#[trigger] cells.deep_view()[i]).0,
                        (#[trigger] cells.deep_view()[j]).0,
                    ),
                forall|i: int|
                    0 <= i < cells.deep_view().len() ==> grid.spec_cell(
                        (#[trigger] cells.deep_view()[i]).0.x as int,
                        cells.deep_view()[i].0.y as int,
                    ) == Some(cells.deep_view()[i].1),
                forall|xx: int, yy: int|
                    ((0 <= yy < y && 0 <= xx) || (yy == y && 0 <= xx < x))
                        && ((#[trigger] grid.spec_cell(xx, yy)) matches Some(_))
                        ==> exists|i: int|
                            0 <= i < cells.deep_view().len()
                                && (#[trigger] cells.deep_view()[i]).0.x == xx
                                && cells.deep_view()[i].0.y == yy,
                cells.deep_view() == cells_of_grid(grid@.take(y as int)) + row_cells(
                    grid@[y as int].take(x as int),
                    y as int,
                ),
            decreases row_len - x,
        {
            let ghost pre = cells.deep_view();
            let slot = &grid.0[y][x];
            assert(grid@[y as int][x as int] == slot.deep_view());
            proof {
                assert(grid@[y as int].take(x as int + 1).drop_last() =~= grid@[
                    y as int
                ].take(x as int));
                assert(grid@[y as int].take(x as int + 1).last() == grid@[y as int][x as int]);
            }
            match slot {
                Some(node) => {
                    let p = IndexPos::new(x as i64, y as i64);
                    let n = node.clone();
                    cells.push((p, n));
                    proof {
                        assert(cells.deep_view() =~= pre.push((p, node.deep_view())));
                        assert(cells.deep_view() =~= cells_of_grid(grid@.take(y as int))
                            + row_cells(grid@[y as int].take(x as int + 1), y as int));
                    }
                },
                None => {},
            }
            proof {
                assert forall|xx: int, yy: int|
                    ((0 <= yy < y && 0 <= xx) || (yy == y && 0 <= xx < x + 1))
                        && ((#[trigger] grid.spec_cell(xx, yy)) matches Some(_))
                    implies exists|i: int|
                        0 <= i < cells.deep_view().len()
                            && (#[trigger] cells.deep_view()[i]).0.x == xx
                            && cells.deep_view()[i].0.y == yy by {
                    if yy == y && xx == x {
                        let last = cells.deep_view().len() - 1;
                        assert(cells.deep_view()[last].0.x == xx && cells.deep_view()[last].0.y
                            == yy);
                    } else {
                        let i = choose|i: int|
                            0 <= i < pre.len() && (#[trigger] pre[i].0).x == xx && pre[i].0.y
                                == yy;
                        assert(cells.deep_view()[i].0.x == xx && cells.deep_view()[i].0.y == yy);
                    }
                }
            }
            x += 1;
        }
        proof {
            assert(grid@[y as int].take(row_len as int) =~= grid@[y as int]);
        }
        y += 1;
    }
    proof {
        assert(grid@.take(grid@.len() as int) =~= grid@);
    }
    cells
}

// ---------------------------------------------------------------------------
// The unique-label table.
// ---------------------------------------------------------------------------

/// Every `(label, position)` pair of the grid, in row-major order.
pub open spec fn label_occurrences(s: Seq<(IndexPos, crate::ast::NodeV)>) -> Seq<
    (Seq<char>, IndexPos),
>
    decreases s.len(),
{
    if s.len() == 0 {
        Seq::empty()
    } else {
        let rest = label_occurrences(s.drop_last());
        match s.last().1.label {
            Some(l) => rest.push((l, s.last().0)),
            None => rest,
        }
    }
}

/// How often a label occurs in the grid.
pub open spec fn label_count(s: Seq<(IndexPos, crate::ast::NodeV)>, l: Seq<char>) -> int {
    crate::table::nmap_count(label_occurrences(s), l)
}

/// All positions carrying a label, in row-major order.
pub open spec fn label_positions(s: Seq<(IndexPos, crate::ast::NodeV)>, l: Seq<char>) -> Seq<
    IndexPos,
> {
    crate::table::nmap_values(label_occurrences(s), l)
}

/// Collects all positions stored under a label.
fn positions_of_label(occ: &Vec<(Identifier, IndexPos)>, key: &Identifier) -> (r: Vec<IndexPos>)
    ensures
        r@ == crate::table::nmap_values(occ.deep_view(), key@),
{
    let ghost s = occ.deep_view();
    let mut acc: Vec<IndexPos> = Vec::new();
    let mut i: usize = 0;
    while i < occ.len()
        invariant
            0 <= i <= s.len(),
            s == occ.deep_view(),
            s.len() == occ@.len(),
            forall|j: int| 0 <= j < s.len() ==> s[j] == (occ@[j].0@, #[trigger] occ@[j].1),
            acc@ == crate::table::nmap_values(s.take(i as int), key@),
        decreases s.len() - i,
    {
        proof {
            assert(s.take(i as int + 1).drop_last() =~= s.take(i as int));
            assert(s.take(i as int + 1).last() == s[i as int]);
        }
        if occ[i].0.same_as(key) {
            acc.push(occ[i].1);
        }
        i += 1;
    }
    proof {
        assert(s.take(s.len() as int) =~= s);
    }
    acc
}


/// Invariant of the label-splitting pass: `u` holds exactly the labels with
/// the given count seen in the first `j` occurrences, with the stated value.
pub open spec fn label_split_inv<V>(
    u: Seq<(Seq<char>, V)>,
    ov: Seq<(Seq<char>, IndexPos)>,
    j: int,
    want: int,
) -> bool {
    forall|l: Seq<char>|
        crate::table::nmap_contains(u, l) <==> ((if want == 1 {
            crate::table::nmap_count(ov, l) == 1
        } else {
            crate::table::nmap_count(ov, l) >= 2
        }) && exists|jj: int| 0 <= jj < j && ov[jj].0 == l)
}

/// Tries to map each label to the position of the node it is attached to.
/// A label is usable only when it occurs at exactly one position; every
/// label occurring at two or more positions is reported with all of them.
pub fn try_into_label_map(cells: &GridCells) -> (r: Result<
    Vec<(Identifier, IndexPos)>,
    Vec<(Identifier, Vec<IndexPos>)>,
>)
    ensures
        r is Err <==> exists|l: Seq<char>| label_count(cells.deep_view(), l) >= 2,
        r matches Ok(m) ==> {
            &&& crate::table::nmap_nodup(m.deep_view())
            &&& forall|l: Seq<char>|
                crate::table::nmap_contains(m.deep_view(), l) <==> label_count(
                    cells.deep_view(),
                    l,
                ) == 1
            &&& forall|l: Seq<char>|
                crate::table::nmap_contains(m.deep_view(), l) ==> crate::table::nmap_index(
                    m.deep_view(),
                    l,
                ) == label_positions(cells.deep_view(), l)[0]
            &&& forall|l: Seq<char>|
                crate::table::nmap_contains(m.deep_view(), l) ==> crate::table::pmap_contains(
                    cells.deep_view(),
                    crate::table::nmap_index(m.deep_view(), l),
                )
        },
        r matches Err(e) ==> {
            &&& crate::table::nmap_nodup(e.deep_view())
            &&& forall|l: Seq<char>|
                crate::table::nmap_contains(e.deep_view(), l) <==> label_count(
                    cells.deep_view(),
                    l,
                ) >= 2
            &&& forall|l: Seq<char>|
                crate::table::nmap_contains(e.deep_view(), l) ==> crate::table::nmap_index(
                    e.deep_view(),
                    l,
                ) == label_positions(cells.deep_view(), l)
        },
{
    let ghost cs = cells.deep_view();
    // Phase one: every (label, position) pair, row-major.
    let mut occ: Vec<(Identifier, IndexPos)> = Vec::new();
    let mut i: usize = 0;
    while i < cells.len()
        invariant
            0 <= i <= cs.len(),
            cs == cells.deep_view(),
            cs.len() == cells@.len(),
            forall|j: int|
                0 <= j < cs.len() ==> cs[j] == (cells@[j].0, #[trigger] cells@[j].1.deep_view()),
            occ.deep_view() == label_occurrences(cs.take(i as int)),
            forall|k: int|
                0 <= k < occ.deep_view().len() ==> crate::table::pmap_contains(
                    cs,
                    (#[trigger] occ.deep_view()[k]).1,
                ),
        decreases cs.len() - i,
    {
        proof {
            assert(cs.take(i as int + 1).drop_last() =~= cs.take(i as int));
            assert(cs.take(i as int + 1).last() == cs[i as int]);
        }
        let ghost pre = occ.deep_view();
        match &cells[i].1.label {
            Some(l) => {
                occ.push((l.clone(), cells[i].0));
                proof {
                    assert(occ.deep_view() =~= pre.push((l@, cs[i as int].0)));
                    assert(crate::table::pmap_contains(cs, cs[i as int].0));
                }
            },
            None => {},
        }
        i += 1;
    }
    proof {
        assert(cs.take(cs.len() as int) =~= cs);
    }
    let ghost ov = occ.deep_view();
    // Phase two: split into unique labels and duplicated labels.
    let mut uniq: Vec<(Identifier, IndexPos)> = Vec::new();
    let mut dups: Vec<(Identifier, Vec<IndexPos>)> = Vec::new();
    let mut j: usize = 0;
    while j < occ.len()
        invariant
            0 <= j <= ov.len(),
            ov == occ.deep_view(),
            ov == label_occurrences(cs),
            ov.len() == occ@.len(),
            forall|jj: int| 0 <= jj < ov.len() ==> ov[jj] == (occ@[jj].0@, #[trigger] occ@[jj].1),
            forall|k: int|
                0 <= k < ov.len() ==> crate::table::pmap_contains(cs, (#[trigger] ov[k]).1),
            crate::table::nmap_nodup(uniq.deep_view()),
            crate::table::nmap_nodup(dups.deep_view()),
            label_split_inv(uniq.deep_view(), ov, j as int, 1),
            label_split_inv(dups.deep_view(), ov, j as int, 2),
            forall|l: Seq<char>|
                crate::table::nmap_contains(uniq.deep_view(), l)
                    ==> crate::table::nmap_index(uniq.deep_view(), l)
                    == crate::table::nmap_values(ov, l)[0],
            forall|l: Seq<char>|
                crate::table::nmap_contains(dups.deep_view(), l)
                    ==> crate::table::nmap_index(dups.deep_view(), l)
                    == crate::table::nmap_values(ov, l),
        decreases ov.len() - j,
    {
        let label = &occ[j].0;
        let ghost pre_u0 = uniq.deep_view();
        let ghost pre_d0 = dups.deep_view();
        let c = crate::table::id_map_count(&occ, label);
        proof {
            crate::table::lemma_nmap_values_len(ov, label@);
            assert(ov[j as int].0 == label@);
        }
        if c == 1 {
            let ghost pre_u = uniq.deep_view();
            proof {
                if crate::table::nmap_contains(pre_u, label@) {
                    let jj = choose|jj: int| 0 <= jj < j && ov[jj].0 == label@;
                    crate::table::lemma_nmap_count_two(ov, label@, jj, j as int);
                    assert(false);
                }
            }
            let ps = positions_of_label(&occ, label);
            uniq.push((label.clone(), ps[0]));
            proof {
                assert(uniq.deep_view() =~= pre_u.push(
                    (label@, crate::table::nmap_values(ov, label@)[0]),
                ));
                crate::table::lemma_nmap_push(
                    pre_u,
                    (label@, crate::table::nmap_values(ov, label@)[0]),
                );
            }
        } else {
            proof {
                if crate::table::nmap_count(ov, label@) < 2 {
                    crate::table::lemma_nmap_count_pos(ov, label@);
                    assert(c == 1);
                }
            }
            if !crate::table::id_map_contains_key(&dups, label) {
                let ghost pre_d = dups.deep_view();
                let ps = positions_of_label(&occ, label);
                proof {
                    assert(pre_d == pre_d0);
                }
                dups.push((label.clone(), ps));
                proof {
                    assert(dups.deep_view() =~~= pre_d.push(
                        (label@, crate::table::nmap_values(ov, label@)),
                    ));
                    crate::table::lemma_nmap_push(
                        pre_d,
                        (label@, crate::table::nmap_values(ov, label@)),
                    );
                }
            }
        }
        proof {
            assert forall|l: Seq<char>|
                crate::table::nmap_contains(uniq.deep_view(), l)
                    <==> (crate::table::nmap_count(ov, l) == 1 && exists|jj: int|
                    0 <= jj < j as int + 1 && ov[jj].0 == l) by {
                if crate::table::nmap_count(ov, l) == 1 && (exists|jj: int|
                    0 <= jj < j + 1 && ov[jj].0 == l) {
                    let jj = choose|jj: int| 0 <= jj < j + 1 && ov[jj].0 == l;
                    if jj == j as int {
                        assert(l == ov[j as int].0);
                        assert(crate::table::nmap_contains(uniq.deep_view(), l));
                    } else {
                        assert(crate::table::nmap_contains(pre_u0, l));
                        assert(crate::table::nmap_contains(uniq.deep_view(), l));
                    }
                }
                if crate::table::nmap_contains(uniq.deep_view(), l) {
                    if crate::table::nmap_contains(pre_u0, l) {
                        assert(crate::table::nmap_count(ov, l) == 1);
                        let jj = choose|jj: int| 0 <= jj < j && ov[jj].0 == l;
                        assert(0 <= jj < j + 1 && ov[jj].0 == l);
                    } else {
                        assert(l == ov[j as int].0);
                        assert(crate::table::nmap_count(ov, l) == 1);
                        assert(0 <= (j as int) < j + 1 && ov[j as int].0 == l);
                    }
                }
            }
            assert forall|l: Seq<char>|
                crate::table::nmap_contains(dups.deep_view(), l)
                    <==> (crate::table::nmap_count(ov, l) >= 2 && exists|jj: int|
                    0 <= jj < j as int + 1 && ov[jj].0 == l) by {
                if crate::table::nmap_count(ov, l) >= 2 && (exists|jj: int|
                    0 <= jj < j + 1 && ov[jj].0 == l) {
                    let jj = choose|jj: int| 0 <= jj < j + 1 && ov[jj].0 == l;
                    if jj == j as int {
                        assert(l == ov[j as int].0);
                        assert(crate::table::nmap_contains(dups.deep_view(), l));
                    } else {
                        assert(crate::table::nmap_contains(pre_d0, l));
                        assert(crate::table::nmap_contains(dups.deep_view(), l));
                    }
                }
                if crate::table::nmap_contains(dups.deep_view(), l) {
                    if crate::table::nmap_contains(pre_d0, l) {
                        assert(crate::table::nmap_count(ov, l) >= 2);
                        let jj = choose|jj: int| 0 <= jj < j && ov[jj].0 == l;
                        assert(0 <= jj < j + 1 && ov[jj].0 == l);
                    } else {
                        assert(l == ov[j as int].0);
                        assert(crate::table::nmap_count(ov, l) >= 2);
                        assert(0 <= (j as int) < j + 1 && ov[j as int].0 == l);
                    }
                }
            }
            assert(label_split_inv(uniq.deep_view(), ov, j as int + 1, 1));
            assert(label_split_inv(dups.deep_view(), ov, j as int + 1, 2));
        }
        j += 1;
    }
    if dups.len() == 0 {
        proof {
            if exists|l: Seq<char>| label_count(cs, l) >= 2 {
                let l = choose|l: Seq<char>| label_count(cs, l) >= 2;
                crate::table::lemma_nmap_count_pos(ov, l);
                let w = choose|i2: int| 0 <= i2 < ov.len() && ov[i2].0 == l;
                assert(crate::table::nmap_contains(dups.deep_view(), l));
            }
            assert forall|l: Seq<char>|
                crate::table::nmap_contains(uniq.deep_view(), l) <==> label_count(cs, l)
                    == 1 by {
                if label_count(cs, l) == 1 {
                    crate::table::lemma_nmap_count_pos(ov, l);
                }
            }
            assert forall|l: Seq<char>|
                crate::table::nmap_contains(uniq.deep_view(), l)
                    implies crate::table::pmap_contains(
                    cs,
                    crate::table::nmap_index(uniq.deep_view(), l),
                ) by {
                crate::table::lemma_nmap_values_len(ov, l);
                crate::table::lemma_nmap_count_pos(ov, l);
                crate::table::lemma_nmap_values_member(ov, l, 0);
                let k = choose|k: int|
                    0 <= k < ov.len() && ov[k].0 == l && ov[k].1 == crate::table::nmap_values(
                        ov,
                        l,
                    )[0];
                assert(crate::table::pmap_contains(cs, ov[k].1));
            }
        }
        Ok(uniq)
    } else {
        proof {
            let l0 = dups.deep_view()[0].0;
            assert(crate::table::nmap_contains(dups.deep_view(), l0));
            assert forall|l: Seq<char>|
                crate::table::nmap_contains(dups.deep_view(), l) <==> label_count(cs, l)
                    >= 2 by {
                if label_count(cs, l) >= 2 {
                    crate::table::lemma_nmap_count_pos(ov, l);
                }
            }
        }
        Err(dups)
    }
}

// ---------------------------------------------------------------------------
// Definition uniqueness.
// ---------------------------------------------------------------------------

/// Checks that no identifier is defined twice; the duplicated identifiers
/// are collected as a set.
pub fn ensure_definitions_are_unique(definitions: crate::ast::Definitions) -> (r: Result<
    crate::ast::Definitions,
    Vec<Identifier>,
>)
    ensures
        r is Err <==> exists|name: Seq<char>|
            crate::table::nmap_count(definitions.deep_view(), name) >= 2,
        r matches Ok(m) ==> m.deep_view() == definitions.deep_view() && crate::table::nmap_nodup(
            definitions.deep_view(),
        ),
        r matches Err(d) ==> (forall|name: Seq<char>|
            d.deep_view().contains(name) <==> crate::table::nmap_count(
                definitions.deep_view(),
                name,
            ) >= 2) && d.deep_view().no_duplicates(),
{
    let ghost dv = definitions.deep_view();
    let mut dups: Vec<Identifier> = Vec::new();
    let mut i: usize = 0;
    while i < definitions.len()
        invariant
            0 <= i <= dv.len(),
            dv == definitions.deep_view(),
            dv.len() == definitions@.len(),
            forall|j: int|
                0 <= j < dv.len() ==> dv[j] == (definitions@[j].0@,
                #[trigger] definitions@[j].1.deep_view()),
            forall|name: Seq<char>|
                dups.deep_view().contains(name) <==> (crate::table::nmap_count(dv, name) >= 2
                    && exists|jj: int| 0 <= jj < i && dv[jj].0 == name),
            dups.deep_view().no_duplicates(),
        decreases dv.len() - i,
    {
        let name = &definitions[i].0;
        let ghost pre0 = dups.deep_view();
        let c = crate::table::id_map_count(&definitions, name);
        proof {
            assert(dv[i as int].0 == name@);
        }
        if c >= 2 {
            if !crate::table::id_list_contains(&dups, name) {
                let ghost pre = dups.deep_view();
                dups.push(name.clone());
                proof {
                    assert(dups.deep_view() =~= pre.push(name@));
                    assert forall|x: Seq<char>|
                        dups.deep_view().contains(x) <==> pre.contains(x) || x == name@ by {
                        if pre.contains(x) {
                            let w = choose|w: int| 0 <= w < pre.len() && pre[w] == x;
                            assert(dups.deep_view()[w] == x);
                        }
                        if x == name@ {
                            assert(dups.deep_view()[dups.deep_view().len() - 1] == x);
                        }
                        if dups.deep_view().contains(x) {
                            let w = choose|w: int|
                                0 <= w < dups.deep_view().len() && dups.deep_view()[w] == x;
                            if w < pre.len() {
                                assert(pre[w] == x);
                            }
                        }
                    }
                    assert(dups.deep_view().no_duplicates()) by {
                        assert(forall|w: int|
                            0 <= w < pre.len() ==> dups.deep_view()[w] == pre[w]);
                        assert(!pre.contains(name@));
                    }
                }
            }
        }
        proof {
            assert forall|x: Seq<char>|
                dups.deep_view().contains(x) <==> (crate::table::nmap_count(dv, x) >= 2
                    && exists|jj: int| 0 <= jj < i + 1 && dv[jj].0 == x) by {
                if crate::table::nmap_count(dv, x) >= 2 && (exists|jj: int|
                    0 <= jj < i + 1 && dv[jj].0 == x) {
                    let jj = choose|jj: int| 0 <= jj < i + 1 && dv[jj].0 == x;
                    if jj == i as int {
                        assert(x == dv[i as int].0);
                        assert(dups.deep_view().contains(x));
                    } else {
                        assert(pre0.contains(x));
                        assert(dups.deep_view().contains(x));
                    }
                }
                if dups.deep_view().contains(x) {
                    if pre0.contains(x) {
                        assert(crate::table::nmap_count(dv, x) >= 2);
                        let jj = choose|jj: int| 0 <= jj < i && dv[jj].0 == x;
                        assert(0 <= jj < i + 1 && dv[jj].0 == x);
                    } else {
                        assert(x == dv[i as int].0);
                        assert(0 <= (i as int) < i + 1 && dv[i as int].0 == x);
                    }
                }
            }
        }
        i += 1;
    }
    if dups.len() == 0 {
        proof {
            if exists|name: Seq<char>| crate::table::nmap_count(dv, name) >= 2 {
                let name = choose|name: Seq<char>| crate::table::nmap_count(dv, name) >= 2;
                crate::table::lemma_nmap_count_pos(dv, name);
                assert(dups.deep_view().contains(name));
            }
            assert(crate::table::nmap_nodup(dv)) by {
                if !crate::table::nmap_nodup(dv) {
                    let (a, b): (int, int) = choose|a: int, b: int|
                        0 <= a < b < dv.len() && dv[a].0 == dv[b].0;
                    crate::table::lemma_nmap_count_two(dv, dv[a].0, a, b);
                    assert(dups.deep_view().contains(dv[a].0));
                }
            }
        }
        Ok(definitions)
    } else {
        proof {
            let n0 = dups.deep_view()[0];
            assert(dups.deep_view().contains(n0));
            assert forall|name: Seq<char>|
                dups.deep_view().contains(name) <==> crate::table::nmap_count(dv, name)
                    >= 2 by {
                if crate::table::nmap_count(dv, name) >= 2 {
                    crate::table::lemma_nmap_count_pos(dv, name);
                    let w = choose|w: int| 0 <= w < dv.len() && dv[w].0 == name;
                    assert(0 <= w < dv.len() && dv[w].0 == name);
                }
            }
        }
        Err(dups)
    }
}

} // verus!

verus! {

// ---------------------------------------------------------------------------
// Per-definition and per-cell attribute resolution.
// ---------------------------------------------------------------------------

/// The cleanly resolved node attributes of each definition, in order.
pub open spec fn def_attr_entries(d: crate::ast::DefinitionsV) -> Seq<(Seq<char>, NodeAttributesV)>
    decreases d.len(),
{
    if d.len() == 0 {
        Seq::empty()
    } else {
        let rest = def_attr_entries(d.drop_last());
        if !node_has_dup(d.last().1) {
            rest.push((d.last().0, resolved_node_attrs(d.last().1)))
        } else {
            rest
        }
    }
}

/// The connection-descriptor lists of the definitions that set `connect`.
pub open spec fn def_connect_entries(d: crate::ast::DefinitionsV) -> Seq<
    (Seq<char>, Seq<ConnectionDescriptorV>),
>
    decreases d.len(),
{
    if d.len() == 0 {
        Seq::empty()
    } else {
        let rest = def_connect_entries(d.drop_last());
        if !node_has_dup(d.last().1) && first_connect(d.last().1) is Some {
            rest.push((d.last().0, first_connect(d.last().1)->Some_0))
        } else {
            rest
        }
    }
}

/// The duplicate-kind report of the definitions that fail resolution.
pub open spec fn def_err_entries(d: crate::ast::DefinitionsV) -> Seq<(Seq<char>, Seq<AttrKind>)>
    decreases d.len(),
{
    if d.len() == 0 {
        Seq::empty()
    } else {
        let rest = def_err_entries(d.drop_last());
        if node_has_dup(d.last().1) {
            rest.push((d.last().0, node_dup_kinds(d.last().1)))
        } else {
            rest
        }
    }
}

/// Resolves the attribute list of every definition; succeeds only when all
/// of them resolve cleanly, and otherwise reports every definition with its
/// duplicated attribute kinds.
pub fn get_attributes_from_definitions(definitions: crate::ast::Definitions) -> (r: Result<
    (Vec<(Identifier, NodeAttributes)>, Vec<(Identifier, Vec<ConnectionDescriptor>)>),
    Vec<(Identifier, Vec<AttrKind>)>,
>)
    ensures
        r is Err <==> def_err_entries(definitions.deep_view()).len() > 0,
        r matches Ok(ok) ==> ok.0.deep_view() == def_attr_entries(definitions.deep_view())
            && ok.1.deep_view() == def_connect_entries(definitions.deep_view()),
        r matches Err(e) ==> e.deep_view() == def_err_entries(definitions.deep_view()),
{
    let ghost d = definitions.deep_view();
    let mut map_node_attrs: Vec<(Identifier, NodeAttributes)> = Vec::new();
    let mut map_connection_descriptors: Vec<(Identifier, Vec<ConnectionDescriptor>)> = Vec::new();
    let mut errors: Vec<(Identifier, Vec<AttrKind>)> = Vec::new();
    let mut i: usize = 0;
    while i < definitions.len()
        invariant
            0 <= i <= d.len(),
            d == definitions.deep_view(),
            d.len() == definitions@.len(),
            forall|j: int|
                0 <= j < d.len() ==> d[j] == (definitions@[j].0@,
                #[trigger] definitions@[j].1.deep_view()),
            map_node_attrs.deep_view() == def_attr_entries(d.take(i as int)),
            map_connection_descriptors.deep_view() == def_connect_entries(d.take(i as int)),
            errors.deep_view() == def_err_entries(d.take(i as int)),
        decreases d.len() - i,
    {
        proof {
            assert(d.take(i as int + 1).drop_last() =~= d.take(i as int));
            assert(d.take(i as int + 1).last() == d[i as int]);
        }
        let id = definitions[i].0.clone();
        let attrs = definitions[i].1.clone();
        proof {
            assert(attrs.deep_view() =~= d[i as int].1);
        }
        match parse_node_attributes(attrs) {
            Ok((node_attrs, connection_descriptors)) => {
                let ghost pre_a = map_node_attrs.deep_view();
                map_node_attrs.push((id.clone(), node_attrs));
                proof {
                    assert(map_node_attrs.deep_view() =~~= pre_a.push(
                        (d[i as int].0, resolved_node_attrs(d[i as int].1)),
                    ));
                }
                match connection_descriptors {
                    Some(descriptors) => {
                        let ghost pre_c = map_connection_descriptors.deep_view();
                        map_connection_descriptors.push((id, descriptors));
                        proof {
                            assert(map_connection_descriptors.deep_view() =~~= pre_c.push(
                                (d[i as int].0, first_connect(d[i as int].1)->Some_0),
                            ));
                        }
                    },
                    None => {},
                }
            },
            Err(duplicate_attrs) => {
                let ghost pre_e = errors.deep_view();
                errors.push((id, duplicate_attrs));
                proof {
                    assert(errors.deep_view() =~~= pre_e.push(
                        (d[i as int].0, node_dup_kinds(d[i as int].1)),
                    ));
                }
            },
        }
        i += 1;
    }
    proof {
        assert(d.take(d.len() as int) =~= d);
    }
    if errors.len() == 0 {
        Ok((map_node_attrs, map_connection_descriptors))
    } else {
        Err(errors)
    }
}

/// The cleanly resolved node attributes of each occupied cell, row-major.
pub open spec fn grid_attr_entries(cs: Seq<(IndexPos, crate::ast::NodeV)>) -> Seq<
    (IndexPos, NodeAttributesV),
>
    decreases cs.len(),
{
    if cs.len() == 0 {
        Seq::empty()
    } else {
        let rest = grid_attr_entries(cs.drop_last());
        if !node_has_dup(cs.last().1.attrs) {
            rest.push((cs.last().0, resolved_node_attrs(cs.last().1.attrs)))
        } else {
            rest
        }
    }
}

/// The connection-descriptor lists of the cells that set `connect`.
pub open spec fn grid_connect_entries(cs: Seq<(IndexPos, crate::ast::NodeV)>) -> Seq<
    (IndexPos, Seq<ConnectionDescriptorV>),
>
    decreases cs.len(),
{
    if cs.len() == 0 {
        Seq::empty()
    } else {
        let rest = grid_connect_entries(cs.drop_last());
        if !node_has_dup(cs.last().1.attrs) && first_connect(cs.last().1.attrs) is Some {
            rest.push((cs.last().0, first_connect(cs.last().1.attrs)->Some_0))
        } else {
            rest
        }
    }
}

/// The duplicate-kind report of the cells that fail resolution.
pub open spec fn grid_err_entries(cs: Seq<(IndexPos, crate::ast::NodeV)>) -> Seq<
    (IndexPos, Seq<AttrKind>),
>
    decreases cs.len(),
{
    if cs.len() == 0 {
        Seq::empty()
    } else {
        let rest = grid_err_entries(cs.drop_last());
        if node_has_dup(cs.last().1.attrs) {
            rest.push((cs.last().0, node_dup_kinds(cs.last().1.attrs)))
        } else {
            rest
        }
    }
}

/// Resolves the attribute list of every occupied grid cell; succeeds only
/// when all resolve cleanly, and otherwise reports every offending cell.
pub fn get_attributes_from_grid(cells: &GridCells) -> (r: Result<
    (Vec<(IndexPos, NodeAttributes)>, Vec<(IndexPos, Vec<ConnectionDescriptor>)>),
    Vec<(IndexPos, Vec<AttrKind>)>,
>)
    ensures
        r is Err <==> grid_err_entries(cells.deep_view()).len() > 0,
        r matches Ok(ok) ==> ok.0.deep_view() == grid_attr_entries(cells.deep_view())
            && ok.1.deep_view() == grid_connect_entries(cells.deep_view()),
        r matches Err(e) ==> e.deep_view() == grid_err_entries(cells.deep_view()),
{
    let ghost cs = cells.deep_view();
    let mut map_node_attrs: Vec<(IndexPos, NodeAttributes)> = Vec::new();
    let mut map_connection_descriptors: Vec<(IndexPos, Vec<ConnectionDescriptor>)> = Vec::new();
    let mut errors: Vec<(IndexPos, Vec<AttrKind>)> = Vec::new();
    let mut i: usize = 0;
    while i < cells.len()
        invariant
            0 <= i <= cs.len(),
            cs == cells.deep_view(),
            cs.len() == cells@.len(),
            forall|j: int|
                0 <= j < cs.len() ==> cs[j] == (cells@[j].0, #[trigger] cells@[j].1.deep_view()),
            map_node_attrs.deep_view() == grid_attr_entries(cs.take(i as int)),
            map_connection_descriptors.deep_view() == grid_connect_entries(cs.take(i as int)),
            errors.deep_view() == grid_err_entries(cs.take(i as int)),
        decreases cs.len() - i,
    {
        proof {
            assert(cs.take(i as int + 1).drop_last() =~= cs.take(i as int));
            assert(cs.take(i as int + 1).last() == cs[i as int]);
        }
        let pos = cells[i].0;
        let attrs = cells[i].1.attrs.clone();
        proof {
            assert(attrs.deep_view() =~= cs[i as int].1.attrs);
        }
        match parse_node_attributes(attrs) {
            Ok((node_attrs, connection_descriptors)) => {
                let ghost pre_a = map_node_attrs.deep_view();
                map_node_attrs.push((pos, node_attrs));
                proof {
                    assert(map_node_attrs.deep_view() =~~= pre_a.push(
                        (cs[i as int].0, resolved_node_attrs(cs[i as int].1.attrs)),
                    ));
                }
                match connection_descriptors {
                    Some(descriptors) => {
                        let ghost pre_c = map_connection_descriptors.deep_view();
                        map_connection_descriptors.push((pos, descriptors));
                        proof {
                            assert(map_connection_descriptors.deep_view() =~~= pre_c.push(
                                (cs[i as int].0, first_connect(cs[i as int].1.attrs)->Some_0),
                            ));
                        }
                    },
                    None => {},
                }
            },
            Err(duplicate_attrs) => {
                let ghost pre_e = errors.deep_view();
                errors.push((pos, duplicate_attrs));
                proof {
                    assert(errors.deep_view() =~~= pre_e.push(
                        (cs[i as int].0, node_dup_kinds(cs[i as int].1.attrs)),
                    ));
                }
            },
        }
        i += 1;
    }
    proof {
        assert(cs.take(cs.len() as int) =~= cs);
    }
    if errors.len() == 0 {
        Ok((map_node_attrs, map_connection_descriptors))
    } else {
        Err(errors)
    }
}

} // verus!

verus! {

// ---------------------------------------------------------------------------
// The exact flattening of the grid into cells.
// ---------------------------------------------------------------------------

/// The occupied slots of one row, left to right.
pub open spec fn row_cells(row: Seq<Option<crate::ast::NodeV>>, y: int) -> Seq<
    (IndexPos, crate::ast::NodeV),
>
    decreases row.len(),
{
    if row.len() == 0 {
        Seq::empty()
    } else {
        let rest = row_cells(row.drop_last(), y);
        match row.last() {
            Some(n) => rest.push(
                (IndexPos { x: (row.len() - 1) as i64, y: y as i64 }, n),
            ),
            None => rest,
        }
    }
}

/// The occupied cells of the whole grid, row-major.
pub open spec fn cells_of_grid(g: crate::ast::GridV) -> Seq<(IndexPos, crate::ast::NodeV)>
    decreases g.len(),
{
    if g.len() == 0 {
        Seq::empty()
    } else {
        cells_of_grid(g.drop_last()) + row_cells(g.last(), g.len() - 1)
    }
}

// ---------------------------------------------------------------------------
// Per-descriptor connection attribute resolution.
// ---------------------------------------------------------------------------

/// The unresolved connections a clean descriptor list yields, in order.
pub open spec fn resolve_descs(ds: Seq<ConnectionDescriptorV>) -> Seq<UnresolvedConnectionV>
    decreases ds.len(),
{
    if ds.len() == 0 {
        Seq::empty()
    } else {
        resolve_descs(ds.drop_last()).push(
            UnresolvedConnectionV {
                to: ds.last().to,
                sides: ds.last().sides,
                attrs: resolved_conn_attrs(ds.last().attrs),
            },
        )
    }
}

/// Whether some descriptor of the list has duplicate attributes.
pub open spec fn descs_have_dup(ds: Seq<ConnectionDescriptorV>) -> bool {
    exists|j: int| 0 <= j < ds.len() && conn_has_dup(ds[j].attrs)
}

/// The per-descriptor duplicate report of one list: each offending ordinal
/// with its duplicated kinds.
pub open spec fn desc_err_list(ds: Seq<ConnectionDescriptorV>) -> Seq<(usize, Seq<AttrKind>)>
    decreases ds.len(),
{
    if ds.len() == 0 {
        Seq::empty()
    } else {
        let rest = desc_err_list(ds.drop_last());
        if conn_has_dup(ds.last().attrs) {
            rest.push(((ds.len() - 1) as usize, conn_dup_kinds(ds.last().attrs)))
        } else {
            rest
        }
    }
}

/// The cleanly resolved connection lists of a name-keyed descriptor map.
pub open spec fn conn_ok_entries(m: Seq<(Seq<char>, Seq<ConnectionDescriptorV>)>) -> Seq<
    (Seq<char>, Seq<UnresolvedConnectionV>),
>
    decreases m.len(),
{
    if m.len() == 0 {
        Seq::empty()
    } else {
        conn_ok_entries(m.drop_last()).push((m.last().0, resolve_descs(m.last().1)))
    }
}

/// The duplicate reports of a name-keyed descriptor map.
pub open spec fn conn_err_entries(m: Seq<(Seq<char>, Seq<ConnectionDescriptorV>)>) -> Seq<
    (Seq<char>, Seq<(usize, Seq<AttrKind>)>),
>
    decreases m.len(),
{
    if m.len() == 0 {
        Seq::empty()
    } else {
        let rest = conn_err_entries(m.drop_last());
        if descs_have_dup(m.last().1) {
            rest.push((m.last().0, desc_err_list(m.last().1)))
        } else {
            rest
        }
    }
}

/// The cleanly resolved connection lists of a position-keyed descriptor map.
pub open spec fn conn_ok_entries_p(m: Seq<(IndexPos, Seq<ConnectionDescriptorV>)>) -> Seq<
    (IndexPos, Seq<UnresolvedConnectionV>),
>
    decreases m.len(),
{
    if m.len() == 0 {
        Seq::empty()
    } else {
        conn_ok_entries_p(m.drop_last()).push((m.last().0, resolve_descs(m.last().1)))
    }
}

/// The duplicate reports of a position-keyed descriptor map.
pub open spec fn conn_err_entries_p(m: Seq<(IndexPos, Seq<ConnectionDescriptorV>)>) -> Seq<
    (IndexPos, Seq<(usize, Seq<AttrKind>)>),
>
    decreases m.len(),
{
    if m.len() == 0 {
        Seq::empty()
    } else {
        let rest = conn_err_entries_p(m.drop_last());
        if descs_have_dup(m.last().1) {
            rest.push((m.last().0, desc_err_list(m.last().1)))
        } else {
            rest
        }
    }
}

/// Resolves the attribute list of every connection descriptor of one list.
fn parse_connection_descs(descriptors: &Vec<ConnectionDescriptor>) -> (r: Result<
    Vec<UnresolvedConnection>,
    Vec<(usize, Vec<AttrKind>)>,
>)
    ensures
        r is Err <==> descs_have_dup(descriptors.deep_view()),
        r matches Ok(v) ==> v.deep_view() == resolve_descs(descriptors.deep_view()),
        r matches Err(e) ==> e.deep_view() == desc_err_list(descriptors.deep_view()),
{
    let ghost ds = descriptors.deep_view();
    let mut value: Vec<UnresolvedConnection> = Vec::new();
    let mut errs: Vec<(usize, Vec<AttrKind>)> = Vec::new();
    let mut j: usize = 0;
    while j < descriptors.len()
        invariant
            0 <= j <= ds.len(),
            ds == descriptors.deep_view(),
            ds.len() == descriptors@.len(),
            forall|t: int| 0 <= t < ds.len() ==> ds[t] == #[trigger] descriptors@[t].deep_view(),
            errs.len() == 0 ==> value.deep_view() == resolve_descs(ds.take(j as int)),
            errs.deep_view() == desc_err_list(ds.take(j as int)),
            (errs.len() == 0) == !descs_have_dup(ds.take(j as int)),
        decreases ds.len() - j,
    {
        proof {
            assert(ds.take(j as int + 1).drop_last() =~= ds.take(j as int));
            assert(ds.take(j as int + 1).last() == ds[j as int]);
        }
        let ghost pre_v = value.deep_view();
        let ghost pre_e = errs.deep_view();
        let descriptor = &descriptors[j];
        let attrs = descriptor.attrs.clone();
        proof {
            assert(attrs.deep_view() =~= ds[j as int].attrs);
        }
        match ConnectionAttributes::try_from_attrs(attrs) {
            Ok(resolved) => {
                let to = descriptor.to.clone();
                value.push(
                    UnresolvedConnection { to, sides: descriptor.sides, attrs: resolved },
                );
                proof {
                    assert(value.deep_view() =~~= pre_v.push(
                        UnresolvedConnectionV {
                            to: ds[j as int].to,
                            sides: ds[j as int].sides,
                            attrs: resolved_conn_attrs(ds[j as int].attrs),
                        },
                    ));
                    if !descs_have_dup(ds.take(j as int)) && !conn_has_dup(ds[j as int].attrs) {
                        assert forall|t: int|
                            0 <= t < ds.take(j as int + 1).len() implies !conn_has_dup(
                            (#[trigger] ds.take(j as int + 1)[t]).attrs,
                        ) by {
                            if t < j as int {
                                assert(!conn_has_dup(ds.take(j as int)[t].attrs));
                            }
                        }
                    }
                }
            },
            Err(duplicate_attrs) => {
                errs.push((j, duplicate_attrs));
                proof {
                    assert(errs.deep_view() =~~= pre_e.push(
                        (j, conn_dup_kinds(ds[j as int].attrs)),
                    ));
                    assert(conn_has_dup(ds.take(j as int + 1)[j as int].attrs));
                }
            },
        }
        j += 1;
    }
    proof {
        assert(ds.take(ds.len() as int) =~= ds);
    }
    if errs.len() == 0 {
        Ok(value)
    } else {
        Err(errs)
    }
}

/// Resolves the attributes of every connection descriptor of a name-keyed
/// map; succeeds only when every descriptor of every entry is clean, and
/// otherwise reports each offender by its owner and ordinal index.
pub fn parse_connection_desc_map(m: Vec<(Identifier, Vec<ConnectionDescriptor>)>) -> (r: Result<
    Vec<(Identifier, Vec<UnresolvedConnection>)>,
    Vec<(Identifier, Vec<(usize, Vec<AttrKind>)>)>,
>)
    ensures
        r is Err <==> conn_err_entries(m.deep_view()).len() > 0,
        r matches Ok(v) ==> v.deep_view() == conn_ok_entries(m.deep_view()),
        r matches Err(e) ==> e.deep_view() == conn_err_entries(m.deep_view()),
{
    let ghost mv = m.deep_view();
    let mut res: Vec<(Identifier, Vec<UnresolvedConnection>)> = Vec::new();
    let mut errors: Vec<(Identifier, Vec<(usize, Vec<AttrKind>)>)> = Vec::new();
    let mut i: usize = 0;
    while i < m.len()
        invariant
            0 <= i <= mv.len(),
            mv == m.deep_view(),
            mv.len() == m@.len(),
            forall|t: int|
                0 <= t < mv.len() ==> mv[t] == (m@[t].0@, #[trigger] m@[t].1.deep_view()),
            errors.len() == 0 ==> res.deep_view() == conn_ok_entries(mv.take(i as int)),
            errors.deep_view() == conn_err_entries(mv.take(i as int)),
        decreases mv.len() - i,
    {
        proof {
            assert(mv.take(i as int + 1).drop_last() =~= mv.take(i as int));
            assert(mv.take(i as int + 1).last() == mv[i as int]);
        }
        let ghost pre_r = res.deep_view();
        let ghost pre_e = errors.deep_view();
        let id = m[i].0.clone();
        match parse_connection_descs(&m[i].1) {
            Ok(value) => {
                res.push((id, value));
                proof {
                    assert(res.deep_view() =~~= pre_r.push(
                        (mv[i as int].0, resolve_descs(mv[i as int].1)),
                    ));
                }
            },
            Err(errs) => {
                errors.push((id, errs));
                proof {
                    assert(errors.deep_view() =~~= pre_e.push(
                        (mv[i as int].0, desc_err_list(mv[i as int].1)),
                    ));
                }
            },
        }
        i += 1;
    }
    proof {
        assert(mv.take(mv.len() as int) =~= mv);
    }
    if errors.len() == 0 {
        Ok(res)
    } else {
        Err(errors)
    }
}

/// Resolves the attributes of every connection descriptor of a
/// position-keyed map, as `parse_connection_desc_map` does for names.
pub fn parse_connection_desc_map_pos(m: Vec<(IndexPos, Vec<ConnectionDescriptor>)>) -> (r: Result<
    Vec<(IndexPos, Vec<UnresolvedConnection>)>,
    Vec<(IndexPos, Vec<(usize, Vec<AttrKind>)>)>,
>)
    ensures
        r is Err <==> conn_err_entries_p(m.deep_view()).len() > 0,
        r matches Ok(v) ==> v.deep_view() == conn_ok_entries_p(m.deep_view()),
        r matches Err(e) ==> e.deep_view() == conn_err_entries_p(m.deep_view()),
{
    let ghost mv = m.deep_view();
    let mut res: Vec<(IndexPos, Vec<UnresolvedConnection>)> = Vec::new();
    let mut errors: Vec<(IndexPos, Vec<(usize, Vec<AttrKind>)>)> = Vec::new();
    let mut i: usize = 0;
    while i < m.len()
        invariant
            0 <= i <= mv.len(),
            mv == m.deep_view(),
            mv.len() == m@.len(),
            forall|t: int|
                0 <= t < mv.len() ==> mv[t] == (m@[t].0, #[trigger] m@[t].1.deep_view()),
            errors.len() == 0 ==> res.deep_view() == conn_ok_entries_p(mv.take(i as int)),
            errors.deep_view() == conn_err_entries_p(mv.take(i as int)),
        decreases mv.len() - i,
    {
        proof {
            assert(mv.take(i as int + 1).drop_last() =~= mv.take(i as int));
            assert(mv.take(i as int + 1).last() == mv[i as int]);
        }
        let ghost pre_r = res.deep_view();
        let ghost pre_e = errors.deep_view();
        let key = m[i].0;
        match parse_connection_descs(&m[i].1) {
            Ok(value) => {
                res.push((key, value));
                proof {
                    assert(res.deep_view() =~~= pre_r.push(
                        (mv[i as int].0, resolve_descs(mv[i as int].1)),
                    ));
                }
            },
            Err(errs) => {
                errors.push((key, errs));
                proof {
                    assert(errors.deep_view() =~~= pre_e.push(
                        (mv[i as int].0, desc_err_list(mv[i as int].1)),
                    ));
                }
            },
        }
        i += 1;
    }
    proof {
        assert(mv.take(mv.len() as int) =~= mv);
    }
    if errors.len() == 0 {
        Ok(res)
    } else {
        Err(errors)
    }
}

} // verus!

verus! {

// ---------------------------------------------------------------------------
// Fanning definition values out over the grid.
// ---------------------------------------------------------------------------

/// Invariant of fanning out: the result holds exactly the occupied cells
/// whose identifier is among the first `i` keys of the map.
pub open spec fn fanout_keys_inv<V>(
    r: Seq<(IndexPos, V)>,
    g: crate::grid::GridIndex,
    m: Seq<(Seq<char>, V)>,
    i: int,
) -> bool {
    forall|p: IndexPos|
        crate::table::pmap_contains(r, p) <==> (g.spec_occupied(p) && exists|jj: int|
            0 <= jj < i && m[jj].0 == g.spec_id_at(p))
}

/// Fans a name-keyed map of node attributes out to every grid occurrence of
/// each identifier.  A definition with no occurrences is silently unused.
pub fn resolve_id_map_attrs(
    grid: &crate::grid::GridIndex,
    map_id: Vec<(Identifier, NodeAttributes)>,
) -> (r: Vec<(IndexPos, NodeAttributes)>)
    requires
        grid.wf(),
        crate::table::nmap_nodup(map_id.deep_view()),
    ensures
        crate::table::pmap_nodup(r.deep_view()),
        forall|p: IndexPos|
            crate::table::pmap_contains(r.deep_view(), p) <==> (grid.spec_occupied(p)
                && crate::table::nmap_contains(map_id.deep_view(), grid.spec_id_at(p))),
        forall|p: IndexPos|
            crate::table::pmap_contains(r.deep_view(), p) ==> crate::table::pmap_index(
                r.deep_view(),
                p,
            ) == crate::table::nmap_index(map_id.deep_view(), grid.spec_id_at(p)),
{
    let ghost mv = map_id.deep_view();
    let mut res: Vec<(IndexPos, NodeAttributes)> = Vec::new();
    let mut i: usize = 0;
    while i < map_id.len()
        invariant
            0 <= i <= mv.len(),
            mv == map_id.deep_view(),
            mv.len() == map_id@.len(),
            grid.wf(),
            crate::table::nmap_nodup(mv),
            forall|t: int|
                0 <= t < mv.len() ==> mv[t] == (map_id@[t].0@,
                #[trigger] map_id@[t].1.deep_view()),
            crate::table::pmap_nodup(res.deep_view()),
            fanout_keys_inv(res.deep_view(), *grid, mv, i as int),
            forall|p: IndexPos|
                crate::table::pmap_contains(res.deep_view(), p) ==> crate::table::pmap_index(
                    res.deep_view(),
                    p,
                ) == crate::table::nmap_index(mv, grid.spec_id_at(p)),
        decreases mv.len() - i,
    {
        let ghost pre0 = res.deep_view();
        let id = &map_id[i].0;
        proof {
            assert(mv[i as int].0 == id@);
            crate::table::lemma_nmap_index_at(mv, i as int);
        }
        match grid.get_positions(id) {
            Some(ps) => {
                let ghost psv = ps@;
                proof {
                    grid.lemma_positions_of_sorted(id@);
                }
                let value = &map_id[i].1;
                let mut t: usize = 0;
                while t < ps.len()
                    invariant
                        0 <= t <= psv.len(),
                        psv == ps@,
                        psv == grid.spec_positions_of(id@),
                        grid.wf(),
                        mv == map_id.deep_view(),
                        mv.len() == map_id@.len(),
                        0 <= i < mv.len(),
                        crate::table::nmap_nodup(mv),
                        mv[i as int].0 == id@,
                        id@ == map_id@[i as int].0@,
                        *value == map_id@[i as int].1,
                        value.deep_view() == crate::table::nmap_index(mv, id@),
                        forall|a: int, b: int|
                            0 <= a < b < psv.len() ==> crate::grid::row_major_lt(
                                #[trigger] psv[a],
                                #[trigger] psv[b],
                            ),
                        crate::table::pmap_nodup(res.deep_view()),
                        forall|p: IndexPos|
                            crate::table::pmap_contains(res.deep_view(), p) <==> (
                            grid.spec_occupied(p) && ((exists|jj: int|
                                0 <= jj < i && mv[jj].0 == grid.spec_id_at(p)) || (
                            grid.spec_id_at(p) == id@ && exists|tt: int|
                                0 <= tt < t && psv[tt] == p))),
                        forall|p: IndexPos|
                            crate::table::pmap_contains(res.deep_view(), p)
                                ==> crate::table::pmap_index(res.deep_view(), p)
                                == crate::table::nmap_index(mv, grid.spec_id_at(p)),
                    decreases psv.len() - t,
                {
                    let ghost pre = res.deep_view();
                    let p = ps[t];
                    proof {
                        assert(psv[t as int] == p);
                        assert(psv.contains(p));
                        grid.lemma_positions_of_occupied(id@, p);
                        if crate::table::pmap_contains(pre, p) {
                            if exists|jj: int| 0 <= jj < i && mv[jj].0 == grid.spec_id_at(p) {
                                let jj = choose|jj: int|
                                    0 <= jj < i && mv[jj].0 == grid.spec_id_at(p);
                                assert(mv[jj].0 == mv[i as int].0);
                                assert(false);
                            } else {
                                let tt = choose|tt: int| 0 <= tt < t && psv[tt] == p;
                                assert(crate::grid::row_major_lt(psv[tt], psv[t as int]));
                                assert(false);
                            }
                        }
                    }
                    let v = value.clone();
                    res.push((p, v));
                    proof {
                        assert(res.deep_view() =~~= pre.push(
                            (p, crate::table::nmap_index(mv, id@)),
                        ));
                        crate::table::lemma_pmap_push(
                            pre,
                            (p, crate::table::nmap_index(mv, id@)),
                        );
                        assert forall|q: IndexPos|
                            crate::table::pmap_contains(res.deep_view(), q) <==> (
                            grid.spec_occupied(q) && ((exists|jj: int|
                                0 <= jj < i && mv[jj].0 == grid.spec_id_at(q)) || (
                            grid.spec_id_at(q) == id@ && exists|tt: int|
                                0 <= tt < t + 1 && psv[tt] == q))) by {
                            if crate::table::pmap_contains(res.deep_view(), q) {
                                if q == p {
                                    assert(grid.spec_id_at(q) == id@);
                                    assert(0 <= (t as int) < t + 1 && psv[t as int] == q);
                                } else {
                                    assert(crate::table::pmap_contains(pre, q));
                                    if !(exists|jj: int|
                                        0 <= jj < i && mv[jj].0 == grid.spec_id_at(q)) {
                                        let tt = choose|tt: int| 0 <= tt < t && psv[tt] == q;
                                        assert(0 <= tt < t + 1 && psv[tt] == q);
                                    }
                                }
                            }
                            if grid.spec_occupied(q) && ((exists|jj: int|
                                0 <= jj < i && mv[jj].0 == grid.spec_id_at(q)) || (
                            grid.spec_id_at(q) == id@ && exists|tt: int|
                                0 <= tt < t + 1 && psv[tt] == q)) {
                                if grid.spec_id_at(q) == id@ && (exists|tt: int|
                                    0 <= tt < t + 1 && psv[tt] == q) {
                                    let tt = choose|tt: int| 0 <= tt < t + 1 && psv[tt] == q;
                                    if tt == t as int {
                                        assert(q == p);
                                        assert(crate::table::pmap_contains(res.deep_view(), q));
                                    } else {
                                        assert(crate::table::pmap_contains(pre, q));
                                    }
                                } else {
                                    assert(crate::table::pmap_contains(pre, q));
                                }
                            }
                        }
                        assert forall|q: IndexPos|
                            crate::table::pmap_contains(res.deep_view(), q)
                                implies crate::table::pmap_index(res.deep_view(), q)
                                == crate::table::nmap_index(mv, grid.spec_id_at(q)) by {
                            if q == p {
                                assert(crate::table::pmap_index(res.deep_view(), q)
                                    == crate::table::nmap_index(mv, id@));
                            } else {
                                assert(crate::table::pmap_contains(pre, q));
                            }
                        }
                    }
                    t += 1;
                }
                proof {
                    assert forall|p: IndexPos|
                        crate::table::pmap_contains(res.deep_view(), p) <==> (
                        grid.spec_occupied(p) && exists|jj: int|
                            0 <= jj < i + 1 && mv[jj].0 == grid.spec_id_at(p)) by {
                        grid.lemma_positions_of_occupied(id@, p);
                        if crate::table::pmap_contains(res.deep_view(), p) {
                            if exists|jj: int| 0 <= jj < i && mv[jj].0 == grid.spec_id_at(p) {
                                let jj = choose|jj: int|
                                    0 <= jj < i && mv[jj].0 == grid.spec_id_at(p);
                                assert(0 <= jj < i + 1 && mv[jj].0 == grid.spec_id_at(p));
                            } else {
                                assert(grid.spec_id_at(p) == id@);
                                assert(mv[i as int].0 == grid.spec_id_at(p));
                            }
                        }
                        if grid.spec_occupied(p) && (exists|jj: int|
                            0 <= jj < i + 1 && mv[jj].0 == grid.spec_id_at(p)) {
                            let jj = choose|jj: int|
                                0 <= jj < i + 1 && mv[jj].0 == grid.spec_id_at(p);
                            if jj == i as int {
                                assert(grid.spec_id_at(p) == id@);
                                assert(psv.contains(p));
                                let tt = choose|tt: int| 0 <= tt < psv.len() && psv[tt] == p;
                                assert(crate::table::pmap_contains(res.deep_view(), p));
                            }
                        }
                    }
                }
            },
            None => {
                proof {
                    assert forall|p: IndexPos|
                        crate::table::pmap_contains(res.deep_view(), p) <==> (
                        grid.spec_occupied(p) && exists|jj: int|
                            0 <= jj < i + 1 && mv[jj].0 == grid.spec_id_at(p)) by {
                        grid.lemma_positions_of_occupied(id@, p);
                        if grid.spec_occupied(p) && (exists|jj: int|
                            0 <= jj < i + 1 && mv[jj].0 == grid.spec_id_at(p)) {
                            let jj = choose|jj: int|
                                0 <= jj < i + 1 && mv[jj].0 == grid.spec_id_at(p);
                            if jj == i as int {
                                assert(grid.spec_positions_of(id@).contains(p));
                                assert(false);
                            }
                        }
                        if crate::table::pmap_contains(res.deep_view(), p) {
                            let jj = choose|jj: int|
                                0 <= jj < i && mv[jj].0 == grid.spec_id_at(p);
                            assert(0 <= jj < i + 1 && mv[jj].0 == grid.spec_id_at(p));
                        }
                    }
                }
            },
        }
        proof {
            assert(fanout_keys_inv(res.deep_view(), *grid, mv, i as int + 1));
        }
        i += 1;
    }
    res
}


/// Fans a name-keyed map of connection lists out to every grid occurrence
/// of each identifier, as `resolve_id_map_attrs` does for attributes.
pub fn resolve_id_map_connections(
    grid: &crate::grid::GridIndex,
    map_id: Vec<(Identifier, Vec<UnresolvedConnection>)>,
) -> (r: Vec<(IndexPos, Vec<UnresolvedConnection>)>)
    requires
        grid.wf(),
        crate::table::nmap_nodup(map_id.deep_view()),
    ensures
        crate::table::pmap_nodup(r.deep_view()),
        forall|p: IndexPos|
            crate::table::pmap_contains(r.deep_view(), p) <==> (grid.spec_occupied(p)
                && crate::table::nmap_contains(map_id.deep_view(), grid.spec_id_at(p))),
        forall|p: IndexPos|
            crate::table::pmap_contains(r.deep_view(), p) ==> crate::table::pmap_index(
                r.deep_view(),
                p,
            ) == crate::table::nmap_index(map_id.deep_view(), grid.spec_id_at(p)),
{
    let ghost mv = map_id.deep_view();
    let mut res: Vec<(IndexPos, Vec<UnresolvedConnection>)> = Vec::new();
    let mut i: usize = 0;
    while i < map_id.len()
        invariant
            0 <= i <= mv.len(),
            mv == map_id.deep_view(),
            mv.len() == map_id@.len(),
            grid.wf(),
            crate::table::nmap_nodup(mv),
            forall|t: int|
                0 <= t < mv.len() ==> mv[t] == (map_id@[t].0@,
                #[trigger] map_id@[t].1.deep_view()),
            crate::table::pmap_nodup(res.deep_view()),
            fanout_keys_inv(res.deep_view(), *grid, mv, i as int),
            forall|p: IndexPos|
                crate::table::pmap_contains(res.deep_view(), p) ==> crate::table::pmap_index(
                    res.deep_view(),
                    p,
                ) == crate::table::nmap_index(mv, grid.spec_id_at(p)),
        decreases mv.len() - i,
    {
        let ghost pre0 = res.deep_view();
        let id = &map_id[i].0;
        proof {
            assert(mv[i as int].0 == id@);
            crate::table::lemma_nmap_index_at(mv, i as int);
        }
        match grid.get_positions(id) {
            Some(ps) => {
                let ghost psv = ps@;
                proof {
                    grid.lemma_positions_of_sorted(id@);
                }
                let value = &map_id[i].1;
                let mut t: usize = 0;
                while t < ps.len()
                    invariant
                        0 <= t <= psv.len(),
                        psv == ps@,
                        psv == grid.spec_positions_of(id@),
                        grid.wf(),
                        mv == map_id.deep_view(),
                        mv.len() == map_id@.len(),
                        0 <= i < mv.len(),
                        crate::table::nmap_nodup(mv),
                        mv[i as int].0 == id@,
                        id@ == map_id@[i as int].0@,
                        value.deep_view() == crate::table::nmap_index(mv, id@),
                        forall|a: int, b: int|
                            0 <= a < b < psv.len() ==> crate::grid::row_major_lt(
                                #[trigger] psv[a],
                                #[trigger] psv[b],
                            ),
                        crate::table::pmap_nodup(res.deep_view()),
                        forall|p: IndexPos|
                            crate::table::pmap_contains(res.deep_view(), p) <==> (
                            grid.spec_occupied(p) && ((exists|jj: int|
                                0 <= jj < i && mv[jj].0 == grid.spec_id_at(p)) || (
                            grid.spec_id_at(p) == id@ && exists|tt: int|
                                0 <= tt < t && psv[tt] == p))),
                        forall|p: IndexPos|
                            crate::table::pmap_contains(res.deep_view(), p)
                                ==> crate::table::pmap_index(res.deep_view(), p)
                                == crate::table::nmap_index(mv, grid.spec_id_at(p)),
                    decreases psv.len() - t,
                {
                    let ghost pre = res.deep_view();
                    let p = ps[t];
                    proof {
                        assert(psv[t as int] == p);
                        assert(psv.contains(p));
                        grid.lemma_positions_of_occupied(id@, p);
                        if crate::table::pmap_contains(pre, p) {
                            if exists|jj: int| 0 <= jj < i && mv[jj].0 == grid.spec_id_at(p) {
                                let jj = choose|jj: int|
                                    0 <= jj < i && mv[jj].0 == grid.spec_id_at(p);
                                assert(mv[jj].0 == mv[i as int].0);
                                assert(false);
                            } else {
                                let tt = choose|tt: int| 0 <= tt < t && psv[tt] == p;
                                assert(crate::grid::row_major_lt(psv[tt], psv[t as int]));
                                assert(false);
                            }
                        }
                    }
                    let v = value.clone();
                    proof {
                        assert forall|k: int| 0 <= k < value@.len() implies v@[k]
                            == value@[k] by {}
                        assert(v.deep_view() =~~= value.deep_view());
                    }
                    res.push((p, v));
                    proof {
                        assert(res.deep_view() =~~= pre.push(
                            (p, crate::table::nmap_index(mv, id@)),
                        ));
                        crate::table::lemma_pmap_push(
                            pre,
                            (p, crate::table::nmap_index(mv, id@)),
                        );
                        assert forall|q: IndexPos|
                            crate::table::pmap_contains(res.deep_view(), q) <==> (
                            grid.spec_occupied(q) && ((exists|jj: int|
                                0 <= jj < i && mv[jj].0 == grid.spec_id_at(q)) || (
                            grid.spec_id_at(q) == id@ && exists|tt: int|
                                0 <= tt < t + 1 && psv[tt] == q))) by {
                            if crate::table::pmap_contains(res.deep_view(), q) {
                                if q == p {
                                    assert(grid.spec_id_at(q) == id@);
                                    assert(0 <= (t as int) < t + 1 && psv[t as int] == q);
                                } else {
                                    assert(crate::table::pmap_contains(pre, q));
                                    if !(exists|jj: int|
                                        0 <= jj < i && mv[jj].0 == grid.spec_id_at(q)) {
                                        let tt = choose|tt: int| 0 <= tt < t && psv[tt] == q;
                                        assert(0 <= tt < t + 1 && psv[tt] == q);
                                    }
                                }
                            }
                            if grid.spec_occupied(q) && ((exists|jj: int|
                                0 <= jj < i && mv[jj].0 == grid.spec_id_at(q)) || (
                            grid.spec_id_at(q) == id@ && exists|tt: int|
                                0 <= tt < t + 1 && psv[tt] == q)) {
                                if grid.spec_id_at(q) == id@ && (exists|tt: int|
                                    0 <= tt < t + 1 && psv[tt] == q) {
                                    let tt = choose|tt: int| 0 <= tt < t + 1 && psv[tt] == q;
                                    if tt == t as int {
                                        assert(q == p);
                                        assert(crate::table::pmap_contains(res.deep_view(), q));
                                    } else {
                                        assert(crate::table::pmap_contains(pre, q));
                                    }
                                } else {
                                    assert(crate::table::pmap_contains(pre, q));
                                }
                            }
                        }
                        assert forall|q: IndexPos|
                            crate::table::pmap_contains(res.deep_view(), q)
                                implies crate::table::pmap_index(res.deep_view(), q)
                                == crate::table::nmap_index(mv, grid.spec_id_at(q)) by {
                            if q == p {
                                assert(crate::table::pmap_index(res.deep_view(), q)
                                    == crate::table::nmap_index(mv, id@));
                            } else {
                                assert(crate::table::pmap_contains(pre, q));
                            }
                        }
                    }
                    t += 1;
                }
                proof {
                    assert forall|p: IndexPos|
                        crate::table::pmap_contains(res.deep_view(), p) <==> (
                        grid.spec_occupied(p) && exists|jj: int|
                            0 <= jj < i + 1 && mv[jj].0 == grid.spec_id_at(p)) by {
                        grid.lemma_positions_of_occupied(id@, p);
                        if crate::table::pmap_contains(res.deep_view(), p) {
                            if exists|jj: int| 0 <= jj < i && mv[jj].0 == grid.spec_id_at(p) {
                                let jj = choose|jj: int|
                                    0 <= jj < i && mv[jj].0 == grid.spec_id_at(p);
                                assert(0 <= jj < i + 1 && mv[jj].0 == grid.spec_id_at(p));
                            } else {
                                assert(grid.spec_id_at(p) == id@);
                                assert(mv[i as int].0 == grid.spec_id_at(p));
                            }
                        }
                        if grid.spec_occupied(p) && (exists|jj: int|
                            0 <= jj < i + 1 && mv[jj].0 == grid.spec_id_at(p)) {
                            let jj = choose|jj: int|
                                0 <= jj < i + 1 && mv[jj].0 == grid.spec_id_at(p);
                            if jj == i as int {
                                assert(grid.spec_id_at(p) == id@);
                                assert(psv.contains(p));
                                let tt = choose|tt: int| 0 <= tt < psv.len() && psv[tt] == p;
                                assert(crate::table::pmap_contains(res.deep_view(), p));
                            }
                        }
                    }
                }
            },
            None => {
                proof {
                    assert forall|p: IndexPos|
                        crate::table::pmap_contains(res.deep_view(), p) <==> (
                        grid.spec_occupied(p) && exists|jj: int|
                            0 <= jj < i + 1 && mv[jj].0 == grid.spec_id_at(p)) by {
                        grid.lemma_positions_of_occupied(id@, p);
                        if grid.spec_occupied(p) && (exists|jj: int|
                            0 <= jj < i + 1 && mv[jj].0 == grid.spec_id_at(p)) {
                            let jj = choose|jj: int|
                                0 <= jj < i + 1 && mv[jj].0 == grid.spec_id_at(p);
                            if jj == i as int {
                                assert(grid.spec_positions_of(id@).contains(p));
                                assert(false);
                            }
                        }
                        if crate::table::pmap_contains(res.deep_view(), p) {
                            let jj = choose|jj: int|
                                0 <= jj < i && mv[jj].0 == grid.spec_id_at(p);
                            assert(0 <= jj < i + 1 && mv[jj].0 == grid.spec_id_at(p));
                        }
                    }
                }
            },
        }
        proof {
            assert(fanout_keys_inv(res.deep_view(), *grid, mv, i as int + 1));
        }
        i += 1;
    }
    res
}


} // verus!

verus! {

// ---------------------------------------------------------------------------
// The merge engine: definition-level maps combined with grid-level maps.
// ---------------------------------------------------------------------------

/// Key invariant of merging: the keys are those of `base` plus the first
/// `j` keys of `over`.
pub open spec fn merge_keys_inv<V>(
    r: Seq<(IndexPos, V)>,
    base: Seq<(IndexPos, V)>,
    over: Seq<(IndexPos, V)>,
    j: int,
) -> bool {
    forall|p: IndexPos|
        crate::table::pmap_contains(r, p) <==> (crate::table::pmap_contains(base, p) || exists|
            jj: int,
        | 0 <= jj < j && over[jj].0 == p)
}

/// Value invariant of merging node attributes: fields of `over` win.
pub open spec fn merge_attr_values_inv(
    r: Seq<(IndexPos, NodeAttributesV)>,
    base: Seq<(IndexPos, NodeAttributesV)>,
    over: Seq<(IndexPos, NodeAttributesV)>,
    j: int,
) -> bool {
    forall|p: IndexPos|
        #![trigger crate::table::pmap_index(r, p)]
        crate::table::pmap_contains(r, p) ==> crate::table::pmap_index(r, p) == (
        if exists|jj: int| 0 <= jj < j && over[jj].0 == p {
            if crate::table::pmap_contains(base, p) {
                NodeAttributes::spec_overwrite(
                    crate::table::pmap_index(base, p),
                    crate::table::pmap_index(over, p),
                )
            } else {
                crate::table::pmap_index(over, p)
            }
        } else {
            crate::table::pmap_index(base, p)
        })
}

/// Merges the per-position node attributes: where a position occurs in both
/// maps the fields set by `over` win; other positions keep their record.
pub fn merge_node_attribute_maps(
    base: Vec<(IndexPos, NodeAttributes)>,
    over: Vec<(IndexPos, NodeAttributes)>,
) -> (r: Vec<(IndexPos, NodeAttributes)>)
    requires
        crate::table::pmap_nodup(base.deep_view()),
        crate::table::pmap_nodup(over.deep_view()),
    ensures
        crate::table::pmap_nodup(r.deep_view()),
        forall|p: IndexPos|
            crate::table::pmap_contains(r.deep_view(), p) <==> (crate::table::pmap_contains(
                base.deep_view(),
                p,
            ) || crate::table::pmap_contains(over.deep_view(), p)),
        forall|p: IndexPos|
            #![trigger crate::table::pmap_index(r.deep_view(), p)]
            crate::table::pmap_contains(r.deep_view(), p) ==> crate::table::pmap_index(
                r.deep_view(),
                p,
            ) == (if crate::table::pmap_contains(over.deep_view(), p) {
                if crate::table::pmap_contains(base.deep_view(), p) {
                    NodeAttributes::spec_overwrite(
                        crate::table::pmap_index(base.deep_view(), p),
                        crate::table::pmap_index(over.deep_view(), p),
                    )
                } else {
                    crate::table::pmap_index(over.deep_view(), p)
                }
            } else {
                crate::table::pmap_index(base.deep_view(), p)
            }),
{
    let ghost bv = base.deep_view();
    let ghost ov = over.deep_view();
    let mut res = base;
    let mut j: usize = 0;
    while j < over.len()
        invariant
            0 <= j <= ov.len(),
            ov == over.deep_view(),
            ov.len() == over@.len(),
            crate::table::pmap_nodup(bv),
            crate::table::pmap_nodup(ov),
            forall|t: int|
                0 <= t < ov.len() ==> ov[t] == (over@[t].0, #[trigger] over@[t].1.deep_view()),
            crate::table::pmap_nodup(res.deep_view()),
            merge_keys_inv(res.deep_view(), bv, ov, j as int),
            merge_attr_values_inv(res.deep_view(), bv, ov, j as int),
        decreases ov.len() - j,
    {
        let ghost pre = res.deep_view();
        let p = over[j].0;
        let v = over[j].1.clone();
        proof {
            assert(ov[j as int].0 == p);
            assert(v.deep_view() == ov[j as int].1);
            crate::table::lemma_pmap_index_at(ov, j as int);
            if exists|jj: int| 0 <= jj < j && ov[jj].0 == p {
                let jj = choose|jj: int| 0 <= jj < j && ov[jj].0 == p;
                assert(ov[jj].0 == ov[j as int].0);
                assert(false);
            }
        }
        match crate::table::pos_map_find(&res, p) {
            Some(idx) => {
                proof {
                    assert(pre[idx as int].0 == p);
                    crate::table::lemma_pmap_index_at(pre, idx as int);
                    assert(crate::table::pmap_contains(pre, p));
                    assert(crate::table::pmap_contains(bv, p));
                    assert(crate::table::pmap_index(pre, p) == crate::table::pmap_index(bv, p));
                    assert(pre[idx as int].1 == crate::table::pmap_index(bv, p));
                }
                let old_v = res[idx].1.clone();
                let merged = NodeAttributes::overwrite(old_v, v);
                res.set(idx, (p, merged));
                proof {
                    assert(res.deep_view() =~~= pre.update(
                        idx as int,
                        (
                            p,
                            NodeAttributes::spec_overwrite(
                                crate::table::pmap_index(bv, p),
                                crate::table::pmap_index(ov, p),
                            ),
                        ),
                    ));
                    crate::table::lemma_pmap_update(
                        pre,
                        idx as int,
                        NodeAttributes::spec_overwrite(
                            crate::table::pmap_index(bv, p),
                            crate::table::pmap_index(ov, p),
                        ),
                    );
                    assert(merge_keys_inv(res.deep_view(), bv, ov, j as int + 1)) by {
                        assert forall|q: IndexPos|
                            crate::table::pmap_contains(res.deep_view(), q) <==> (
                            crate::table::pmap_contains(bv, q) || exists|jj: int|
                                0 <= jj < j + 1 && ov[jj].0 == q) by {
                            if crate::table::pmap_contains(res.deep_view(), q) {
                                assert(crate::table::pmap_contains(pre, q));
                                if !crate::table::pmap_contains(bv, q) {
                                    let jj = choose|jj: int| 0 <= jj < j && ov[jj].0 == q;
                                    assert(0 <= jj < j + 1 && ov[jj].0 == q);
                                }
                            }
                            if crate::table::pmap_contains(bv, q) {
                                assert(crate::table::pmap_contains(pre, q));
                                assert(crate::table::pmap_contains(res.deep_view(), q));
                            }
                            if exists|jj: int| 0 <= jj < j + 1 && ov[jj].0 == q {
                                let jj = choose|jj: int| 0 <= jj < j + 1 && ov[jj].0 == q;
                                if jj == j as int {
                                    assert(q == p);
                                    assert(crate::table::pmap_contains(res.deep_view(), q));
                                } else {
                                    assert(crate::table::pmap_contains(pre, q));
                                    assert(crate::table::pmap_contains(res.deep_view(), q));
                                }
                            }
                        }
                    }
                    assert(merge_attr_values_inv(res.deep_view(), bv, ov, j as int + 1)) by {
                        assert forall|q: IndexPos|
                            crate::table::pmap_contains(res.deep_view(), q)
                                implies #[trigger] crate::table::pmap_index(res.deep_view(), q)
                                == (if exists|jj: int| 0 <= jj < j + 1 && ov[jj].0 == q {
                                if crate::table::pmap_contains(bv, q) {
                                    NodeAttributes::spec_overwrite(
                                        crate::table::pmap_index(bv, q),
                                        crate::table::pmap_index(ov, q),
                                    )
                                } else {
                                    crate::table::pmap_index(ov, q)
                                }
                            } else {
                                crate::table::pmap_index(bv, q)
                            }) by {
                            if q == p {
                                assert(crate::table::pmap_index(res.deep_view(), q)
                                    == NodeAttributes::spec_overwrite(
                                    crate::table::pmap_index(bv, q),
                                    crate::table::pmap_index(ov, q),
                                ));
                                assert(0 <= (j as int) < j + 1 && ov[j as int].0 == q);
                            } else {
                                assert(crate::table::pmap_contains(pre, q));
                                assert(crate::table::pmap_index(res.deep_view(), q)
                                    == crate::table::pmap_index(pre, q));
                                assert((exists|jj: int| 0 <= jj < j + 1 && ov[jj].0 == q)
                                    == (exists|jj: int| 0 <= jj < j && ov[jj].0 == q)) by {
                                    if exists|jj: int| 0 <= jj < j + 1 && ov[jj].0 == q {
                                        let jj = choose|jj: int|
                                            0 <= jj < j + 1 && ov[jj].0 == q;
                                        if jj == j as int {
                                            assert(q == p);
                                            assert(false);
                                        }
                                        assert(0 <= jj < j && ov[jj].0 == q);
                                    }
                                }
                            }
                        }
                    }
                }
            },
            None => {
                proof {
                    assert(!crate::table::pmap_contains(pre, p));
                    assert(!crate::table::pmap_contains(bv, p));
                }
                res.push((p, v));
                proof {
                    assert(res.deep_view() =~~= pre.push((p, crate::table::pmap_index(ov, p))));
                    crate::table::lemma_pmap_push(pre, (p, crate::table::pmap_index(ov, p)));
                    assert(merge_keys_inv(res.deep_view(), bv, ov, j as int + 1)) by {
                        assert forall|q: IndexPos|
                            crate::table::pmap_contains(res.deep_view(), q) <==> (
                            crate::table::pmap_contains(bv, q) || exists|jj: int|
                                0 <= jj < j + 1 && ov[jj].0 == q) by {
                            if crate::table::pmap_contains(res.deep_view(), q) {
                                if q == p {
                                    assert(0 <= (j as int) < j + 1 && ov[j as int].0 == q);
                                } else {
                                    assert(crate::table::pmap_contains(pre, q));
                                    if !crate::table::pmap_contains(bv, q) {
                                        let jj = choose|jj: int| 0 <= jj < j && ov[jj].0 == q;
                                        assert(0 <= jj < j + 1 && ov[jj].0 == q);
                                    }
                                }
                            }
                            if crate::table::pmap_contains(bv, q) {
                                assert(crate::table::pmap_contains(pre, q));
                                assert(crate::table::pmap_contains(res.deep_view(), q));
                            }
                            if exists|jj: int| 0 <= jj < j + 1 && ov[jj].0 == q {
                                let jj = choose|jj: int| 0 <= jj < j + 1 && ov[jj].0 == q;
                                if jj == j as int {
                                    assert(q == p);
                                    assert(crate::table::pmap_contains(res.deep_view(), q));
                                } else {
                                    assert(crate::table::pmap_contains(pre, q));
                                    assert(crate::table::pmap_contains(res.deep_view(), q));
                                }
                            }
                        }
                    }
                    assert(merge_attr_values_inv(res.deep_view(), bv, ov, j as int + 1)) by {
                        assert forall|q: IndexPos|
                            crate::table::pmap_contains(res.deep_view(), q)
                                implies #[trigger] crate::table::pmap_index(res.deep_view(), q)
                                == (if exists|jj: int| 0 <= jj < j + 1 && ov[jj].0 == q {
                                if crate::table::pmap_contains(bv, q) {
                                    NodeAttributes::spec_overwrite(
                                        crate::table::pmap_index(bv, q),
                                        crate::table::pmap_index(ov, q),
                                    )
                                } else {
                                    crate::table::pmap_index(ov, q)
                                }
                            } else {
                                crate::table::pmap_index(bv, q)
                            }) by {
                            if q == p {
                                assert(crate::table::pmap_index(res.deep_view(), q)
                                    == crate::table::pmap_index(ov, q));
                                assert(0 <= (j as int) < j + 1 && ov[j as int].0 == q);
                            } else {
                                assert(crate::table::pmap_contains(pre, q));
                                assert(crate::table::pmap_index(res.deep_view(), q)
                                    == crate::table::pmap_index(pre, q));
                                assert((exists|jj: int| 0 <= jj < j + 1 && ov[jj].0 == q)
                                    == (exists|jj: int| 0 <= jj < j && ov[jj].0 == q)) by {
                                    if exists|jj: int| 0 <= jj < j + 1 && ov[jj].0 == q {
                                        let jj = choose|jj: int|
                                            0 <= jj < j + 1 && ov[jj].0 == q;
                                        if jj == j as int {
                                            assert(q == p);
                                            assert(false);
                                        }
                                        assert(0 <= jj < j && ov[jj].0 == q);
                                    }
                                }
                            }
                        }
                    }
                }
            },
        }
        j += 1;
    }
    proof {
        assert forall|p: IndexPos|
            crate::table::pmap_contains(res.deep_view(), p) <==> (crate::table::pmap_contains(
                bv,
                p,
            ) || crate::table::pmap_contains(ov, p)) by {
            if crate::table::pmap_contains(ov, p) {
                let jj = choose|jj: int| 0 <= jj < ov.len() && ov[jj].0 == p;
                assert(0 <= jj < ov.len() && ov[jj].0 == p);
            }
            if crate::table::pmap_contains(res.deep_view(), p) {
                if !crate::table::pmap_contains(bv, p) {
                    let jj = choose|jj: int| 0 <= jj < ov.len() && ov[jj].0 == p;
                    assert(ov[jj].0 == p);
                }
            }
        }
    }
    res
}

} // verus!

verus! {

/// Value invariant of merging connection lists: `over` replaces wholesale.
pub open spec fn merge_conn_values_inv(
    r: Seq<(IndexPos, Seq<UnresolvedConnectionV>)>,
    base: Seq<(IndexPos, Seq<UnresolvedConnectionV>)>,
    over: Seq<(IndexPos, Seq<UnresolvedConnectionV>)>,
    j: int,
) -> bool {
    forall|p: IndexPos|
        #![trigger crate::table::pmap_index(r, p)]
        crate::table::pmap_contains(r, p) ==> crate::table::pmap_index(r, p) == (
        if exists|jj: int| 0 <= jj < j && over[jj].0 == p {
            crate::table::pmap_index(over, p)
        } else {
            crate::table::pmap_index(base, p)
        })
}

/// Merges the per-position connection lists: a position that defines any
/// connections in `over` replaces its whole list; otherwise the `base` list
/// is kept.
pub fn merge_connection_maps(
    base: Vec<(IndexPos, Vec<UnresolvedConnection>)>,
    over: Vec<(IndexPos, Vec<UnresolvedConnection>)>,
) -> (r: Vec<(IndexPos, Vec<UnresolvedConnection>)>)
    requires
        crate::table::pmap_nodup(base.deep_view()),
        crate::table::pmap_nodup(over.deep_view()),
    ensures
        crate::table::pmap_nodup(r.deep_view()),
        forall|p: IndexPos|
            crate::table::pmap_contains(r.deep_view(), p) <==> (crate::table::pmap_contains(
                base.deep_view(),
                p,
            ) || crate::table::pmap_contains(over.deep_view(), p)),
        forall|p: IndexPos|
            #![trigger crate::table::pmap_index(r.deep_view(), p)]
            crate::table::pmap_contains(r.deep_view(), p) ==> crate::table::pmap_index(
                r.deep_view(),
                p,
            ) == (if crate::table::pmap_contains(over.deep_view(), p) {
                crate::table::pmap_index(over.deep_view(), p)
            } else {
                crate::table::pmap_index(base.deep_view(), p)
            }),
{
    let ghost bv = base.deep_view();
    let ghost ov = over.deep_view();
    let mut res = base;
    let mut j: usize = 0;
    while j < over.len()
        invariant
            0 <= j <= ov.len(),
            ov == over.deep_view(),
            ov.len() == over@.len(),
            crate::table::pmap_nodup(bv),
            crate::table::pmap_nodup(ov),
            forall|t: int|
                0 <= t < ov.len() ==> ov[t] == (over@[t].0, #[trigger] over@[t].1.deep_view()),
            crate::table::pmap_nodup(res.deep_view()),
            merge_keys_inv(res.deep_view(), bv, ov, j as int),
            merge_conn_values_inv(res.deep_view(), bv, ov, j as int),
        decreases ov.len() - j,
    {
        let ghost pre = res.deep_view();
        let p = over[j].0;
        let v = over[j].1.clone();
        proof {
            assert(ov[j as int].0 == p);
            assert forall|k: int| 0 <= k < over@[j as int].1@.len() implies v@[k]
                == over@[j as int].1@[k] by {}
            assert(v.deep_view() =~~= over@[j as int].1.deep_view());
            assert(v.deep_view() == ov[j as int].1);
            crate::table::lemma_pmap_index_at(ov, j as int);
            if exists|jj: int| 0 <= jj < j && ov[jj].0 == p {
                let jj = choose|jj: int| 0 <= jj < j && ov[jj].0 == p;
                assert(ov[jj].0 == ov[j as int].0);
                assert(false);
            }
        }
        match crate::table::pos_map_find(&res, p) {
            Some(idx) => {
                proof {
                    assert(pre[idx as int].0 == p);
                    crate::table::lemma_pmap_index_at(pre, idx as int);
                    assert(crate::table::pmap_contains(pre, p));
                    assert(crate::table::pmap_contains(bv, p));
                }
                crate::table::pos_map_replace_at(&mut res, idx, v);
            },
            None => {
                proof {
                    assert(!crate::table::pmap_contains(pre, p));
                    assert(!crate::table::pmap_contains(bv, p));
                }
                crate::table::pos_map_insert_new(&mut res, p, v);
            },
        }
        proof {
            assert forall|q: IndexPos|
                crate::table::pmap_contains(res.deep_view(), q) <==> (
                crate::table::pmap_contains(bv, q) || exists|jj: int|
                    0 <= jj < j as int + 1 && ov[jj].0 == q) by {
                if crate::table::pmap_contains(res.deep_view(), q) {
                    if q == p {
                        assert(0 <= (j as int) < j as int + 1 && ov[j as int].0 == q);
                    } else {
                        assert(crate::table::pmap_contains(pre, q));
                        if !crate::table::pmap_contains(bv, q) {
                            let jj = choose|jj: int| 0 <= jj < j && ov[jj].0 == q;
                            assert(0 <= jj < j as int + 1 && ov[jj].0 == q);
                        }
                    }
                }
                if crate::table::pmap_contains(bv, q) {
                    assert(crate::table::pmap_contains(pre, q));
                    assert(crate::table::pmap_contains(res.deep_view(), q));
                }
                if exists|jj: int| 0 <= jj < j as int + 1 && ov[jj].0 == q {
                    let jj = choose|jj: int| 0 <= jj < j as int + 1 && ov[jj].0 == q;
                    if jj == j as int {
                        assert(q == p);
                        assert(crate::table::pmap_contains(res.deep_view(), q));
                    } else {
                        assert(crate::table::pmap_contains(pre, q));
                        assert(crate::table::pmap_contains(res.deep_view(), q));
                    }
                }
            }
            assert(merge_keys_inv(res.deep_view(), bv, ov, j as int + 1));
            assert forall|q: IndexPos|
                crate::table::pmap_contains(res.deep_view(), q)
                    implies #[trigger] crate::table::pmap_index(res.deep_view(), q) == (
                if exists|jj: int| 0 <= jj < j as int + 1 && ov[jj].0 == q {
                    crate::table::pmap_index(ov, q)
                } else {
                    crate::table::pmap_index(bv, q)
                }) by {
                if q == p {
                    assert(crate::table::pmap_index(res.deep_view(), q)
                        == crate::table::pmap_index(ov, q));
                    assert(0 <= (j as int) < j as int + 1 && ov[j as int].0 == q);
                } else {
                    assert(crate::table::pmap_contains(pre, q));
                    assert(crate::table::pmap_index(res.deep_view(), q)
                        == crate::table::pmap_index(pre, q));
                    assert((exists|jj: int| 0 <= jj < j as int + 1 && ov[jj].0 == q) == (exists|
                        jj: int,
                    | 0 <= jj < j && ov[jj].0 == q)) by {
                        if exists|jj: int| 0 <= jj < j as int + 1 && ov[jj].0 == q {
                            let jj = choose|jj: int| 0 <= jj < j as int + 1 && ov[jj].0 == q;
                            if jj == j as int {
                                assert(q == p);
                                assert(false);
                            }
                            assert(0 <= jj < j && ov[jj].0 == q);
                        }
                    }
                }
            }
            assert(merge_conn_values_inv(res.deep_view(), bv, ov, j as int + 1));
        }
        j += 1;
    }
    proof {
        assert forall|p: IndexPos|
            crate::table::pmap_contains(res.deep_view(), p) <==> (crate::table::pmap_contains(
                bv,
                p,
            ) || crate::table::pmap_contains(ov, p)) by {
            if crate::table::pmap_contains(ov, p) {
                let jj = choose|jj: int| 0 <= jj < ov.len() && ov[jj].0 == p;
                assert(0 <= jj < ov.len() && ov[jj].0 == p);
            }
            if crate::table::pmap_contains(res.deep_view(), p) {
                if !crate::table::pmap_contains(bv, p) {
                    let jj = choose|jj: int| 0 <= jj < ov.len() && ov[jj].0 == p;
                    assert(ov[jj].0 == p);
                }
            }
        }
    }
    res
}

} // verus!

verus! {

// ---------------------------------------------------------------------------
// Resolving destinations over the merged connection map.
// ---------------------------------------------------------------------------

/// The resolved connection one descriptor yields (meaningful when its
/// destination resolves).
pub open spec fn uc_connection(
    g: crate::grid::GridIndex,
    labels: Seq<(Seq<char>, IndexPos)>,
    p: IndexPos,
    uc: UnresolvedConnectionV,
) -> ConnectionV {
    ConnectionV {
        from: (p, uc.sides.0),
        to: (g.spec_normalize(p, uc.to, labels)->Ok_0, uc.sides.1),
        attrs: uc.attrs,
    }
}

/// The connections of one origin's list, in list order.
pub open spec fn entry_connections(
    g: crate::grid::GridIndex,
    labels: Seq<(Seq<char>, IndexPos)>,
    p: IndexPos,
    ucs: Seq<UnresolvedConnectionV>,
) -> Seq<ConnectionV>
    decreases ucs.len(),
{
    if ucs.len() == 0 {
        Seq::empty()
    } else {
        entry_connections(g, labels, p, ucs.drop_last()).push(
            uc_connection(g, labels, p, ucs.last()),
        )
    }
}

/// The resolution failures of one origin's list: each failing ordinal with
/// its cause.
pub open spec fn entry_err_list(
    g: crate::grid::GridIndex,
    labels: Seq<(Seq<char>, IndexPos)>,
    p: IndexPos,
    ucs: Seq<UnresolvedConnectionV>,
) -> Seq<(usize, crate::grid::ResolutionErrorV)>
    decreases ucs.len(),
{
    if ucs.len() == 0 {
        Seq::empty()
    } else {
        let rest = entry_err_list(g, labels, p, ucs.drop_last());
        match g.spec_normalize(p, ucs.last().to, labels) {
            Ok(_) => rest,
            Err(e) => rest.push(((ucs.len() - 1) as usize, e)),
        }
    }
}

/// All resolved connections of the whole map, map order then list order.
pub open spec fn conns_flat(
    g: crate::grid::GridIndex,
    labels: Seq<(Seq<char>, IndexPos)>,
    m: Seq<(IndexPos, Seq<UnresolvedConnectionV>)>,
) -> Seq<ConnectionV>
    decreases m.len(),
{
    if m.len() == 0 {
        Seq::empty()
    } else {
        conns_flat(g, labels, m.drop_last()) + entry_connections(
            g,
            labels,
            m.last().0,
            m.last().1,
        )
    }
}

/// The resolution failures of the whole map, keyed by origin.
pub open spec fn res_err_entries(
    g: crate::grid::GridIndex,
    labels: Seq<(Seq<char>, IndexPos)>,
    m: Seq<(IndexPos, Seq<UnresolvedConnectionV>)>,
) -> Seq<(IndexPos, Seq<(usize, crate::grid::ResolutionErrorV)>)>
    decreases m.len(),
{
    if m.len() == 0 {
        Seq::empty()
    } else {
        let rest = res_err_entries(g, labels, m.drop_last());
        if entry_err_list(g, labels, m.last().0, m.last().1).len() > 0 {
            rest.push((m.last().0, entry_err_list(g, labels, m.last().0, m.last().1)))
        } else {
            rest
        }
    }
}

/// Resolves every connection of the merged per-position map: `Ok` exactly
/// when every destination in the whole document resolves, and otherwise the
/// complete per-origin, per-ordinal failure report.
pub fn resolve_connections_map(
    grid: &crate::grid::GridIndex,
    labels: &Vec<(Identifier, IndexPos)>,
    connections_map: Vec<(IndexPos, Vec<UnresolvedConnection>)>,
) -> (r: Result<Vec<Connection>, Vec<(IndexPos, Vec<(usize, crate::grid::ResolutionError)>)>>)
    requires
        grid.wf(),
        crate::table::nmap_nodup(labels.deep_view()),
        forall|t: int|
            0 <= t < connections_map.deep_view().len()
                ==> (#[trigger] connections_map.deep_view()[t].0).spec_in_bounds(grid.size),
    ensures
        r is Err <==> res_err_entries(
            *grid,
            labels.deep_view(),
            connections_map.deep_view(),
        ).len() > 0,
        r matches Ok(v) ==> v.deep_view() == conns_flat(
            *grid,
            labels.deep_view(),
            connections_map.deep_view(),
        ),
        r matches Err(e) ==> e.deep_view() == res_err_entries(
            *grid,
            labels.deep_view(),
            connections_map.deep_view(),
        ),
{
    let ghost mv = connections_map.deep_view();
    let ghost lv = labels.deep_view();
    let mut res: Vec<Connection> = Vec::new();
    let mut errors: Vec<(IndexPos, Vec<(usize, crate::grid::ResolutionError)>)> = Vec::new();
    let mut i: usize = 0;
    while i < connections_map.len()
        invariant
            0 <= i <= mv.len(),
            mv == connections_map.deep_view(),
            lv == labels.deep_view(),
            mv.len() == connections_map@.len(),
            grid.wf(),
            crate::table::nmap_nodup(lv),
            forall|t: int|
                0 <= t < mv.len() ==> (#[trigger] mv[t]).0.spec_in_bounds(grid.size),
            forall|t: int|
                0 <= t < mv.len() ==> mv[t] == (connections_map@[t].0,
                #[trigger] connections_map@[t].1.deep_view()),
            errors.len() == 0 ==> res.deep_view() == conns_flat(*grid, lv, mv.take(i as int)),
            errors.deep_view() == res_err_entries(*grid, lv, mv.take(i as int)),
        decreases mv.len() - i,
    {
        proof {
            assert(mv.take(i as int + 1).drop_last() =~= mv.take(i as int));
            assert(mv.take(i as int + 1).last() == mv[i as int]);
        }
        let from = connections_map[i].0;
        let conns = &connections_map[i].1;
        let ghost ucs = mv[i as int].1;
        let ghost pre_r = res.deep_view();
        let ghost pre_e = errors.deep_view();
        let mut entry_errs: Vec<(usize, crate::grid::ResolutionError)> = Vec::new();
        let mut j: usize = 0;
        while j < conns.len()
            invariant
                0 <= j <= ucs.len(),
                ucs.len() == conns@.len(),
                grid.wf(),
                crate::table::nmap_nodup(lv),
                lv == labels.deep_view(),
                from.spec_in_bounds(grid.size),
                forall|t: int| 0 <= t < ucs.len() ==> ucs[t] == #[trigger] conns@[t].deep_view(),
                entry_errs.len() == 0 ==> res.deep_view() == pre_r + entry_connections(
                    *grid,
                    lv,
                    from,
                    ucs.take(j as int),
                ),
                entry_errs.deep_view() == entry_err_list(*grid, lv, from, ucs.take(j as int)),
            decreases ucs.len() - j,
        {
            proof {
                assert(ucs.take(j as int + 1).drop_last() =~= ucs.take(j as int));
                assert(ucs.take(j as int + 1).last() == ucs[j as int]);
            }
            let ghost pre_v = res.deep_view();
            let ghost pre_ee = entry_errs.deep_view();
            let unresolved = &conns[j];
            match grid.normalize_destination(from, &unresolved.to, labels) {
                Ok(to) => {
                    let attrs = unresolved.attrs.clone();
                    let c = Connection {
                        from: (from, unresolved.sides.0),
                        to: (to, unresolved.sides.1),
                        attrs,
                    };
                    proof {
                        assert(unresolved.deep_view() == ucs[j as int]);
                        assert(c.deep_view().attrs == ucs[j as int].attrs);
                        assert(c.deep_view() == uc_connection(*grid, lv, from, ucs[j as int]));
                    }
                    res.push(c);
                    proof {
                        assert(res.deep_view() =~~= pre_v.push(
                            uc_connection(*grid, lv, from, ucs[j as int]),
                        ));
                        if pre_ee.len() == 0 {
                            assert((pre_r + entry_connections(*grid, lv, from, ucs.take(
                                j as int,
                            ))).push(uc_connection(*grid, lv, from, ucs[j as int])) =~= pre_r
                                + entry_connections(*grid, lv, from, ucs.take(j as int + 1)));
                        }
                    }
                },
                Err(resolution_error) => {
                    proof {
                        assert(unresolved.deep_view() == ucs[j as int]);
                        assert(resolution_error.deep_view() == grid.spec_normalize(
                            from,
                            ucs[j as int].to,
                            lv,
                        )->Err_0);
                    }
                    entry_errs.push((j, resolution_error));
                    proof {
                        assert(entry_errs.deep_view() =~~= pre_ee.push(
                            (
                                j,
                                grid.spec_normalize(from, ucs[j as int].to, lv)->Err_0,
                            ),
                        ));
                    }
                },
            }
            j += 1;
        }
        proof {
            assert(ucs.take(ucs.len() as int) =~= ucs);
        }
        if entry_errs.len() == 0 {
            proof {
                if pre_e.len() == 0 {
                    assert(res.deep_view() == conns_flat(*grid, lv, mv.take(i as int + 1)));
                }
            }
        } else {
            errors.push((from, entry_errs));
            proof {
                assert(errors.deep_view() =~~= pre_e.push(
                    (from, entry_err_list(*grid, lv, from, ucs)),
                ));
            }
        }
        i += 1;
    }
    proof {
        assert(mv.take(mv.len() as int) =~= mv);
    }
    if errors.len() == 0 {
        Ok(res)
    } else {
        Err(errors)
    }
}

} // verus!

verus! {

// ---------------------------------------------------------------------------
// Derived facts about the per-stage entry lists.
// ---------------------------------------------------------------------------

/// Keys and values of `def_attr_entries`.
pub proof fn lemma_def_attr_entries(d: crate::ast::DefinitionsV)
    requires
        crate::table::nmap_nodup(d),
    ensures
        crate::table::nmap_nodup(def_attr_entries(d)),
        forall|name: Seq<char>|
            crate::table::nmap_contains(def_attr_entries(d), name) <==> (crate::table::nmap_contains(
                d,
                name,
            ) && !node_has_dup(crate::table::nmap_index(d, name))),
        forall|name: Seq<char>|
            crate::table::nmap_contains(def_attr_entries(d), name) ==> crate::table::nmap_index(
                def_attr_entries(d),
                name,
            ) == resolved_node_attrs(crate::table::nmap_index(d, name)),
    decreases d.len(),
{
    if d.len() > 0 {
        assert(crate::table::nmap_nodup(d.drop_last())) by {
            assert(forall|i: int, j: int|
                0 <= i < j < d.drop_last().len() ==> d.drop_last()[i].0 == d[i].0
                    && d.drop_last()[j].0 == d[j].0);
        }
        lemma_def_attr_entries(d.drop_last());
        let rest = def_attr_entries(d.drop_last());
        let key = d.last().0;
        crate::table::lemma_nmap_index_at(d, d.len() - 1);
        assert(!crate::table::nmap_contains(d.drop_last(), key)) by {
            if crate::table::nmap_contains(d.drop_last(), key) {
                let i = choose|i: int|
                    0 <= i < d.drop_last().len() && d.drop_last()[i].0 == key;
                assert(d[i].0 == d[d.len() - 1].0);
            }
        }
        assert(!crate::table::nmap_contains(rest, key));
        assert forall|name: Seq<char>|
            name != key && crate::table::nmap_contains(d.drop_last(), name) implies #[trigger]
        crate::table::nmap_index(d.drop_last(), name) == crate::table::nmap_index(d, name)
            && crate::table::nmap_contains(d, name) by {
            let i = choose|i: int| 0 <= i < d.drop_last().len() && d.drop_last()[i].0 == name;
            assert(d[i].0 == name);
            crate::table::lemma_nmap_index_at(d, i);
            crate::table::lemma_nmap_index_at(d.drop_last(), i);
        }
        assert forall|name: Seq<char>|
            name != key && crate::table::nmap_contains(d, name) implies crate::table::nmap_contains(
            d.drop_last(),
            name,
        ) by {
            let i = choose|i: int| 0 <= i < d.len() && d[i].0 == name;
            assert(i != d.len() - 1);
            assert(d.drop_last()[i].0 == name);
        }
        if !node_has_dup(d.last().1) {
            crate::table::lemma_nmap_push(rest, (key, resolved_node_attrs(d.last().1)));
        } else {
            assert(def_attr_entries(d) == rest);
        }
        assert forall|name: Seq<char>|
            crate::table::nmap_contains(def_attr_entries(d), name) <==> (crate::table::nmap_contains(
                d,
                name,
            ) && !node_has_dup(crate::table::nmap_index(d, name))) by {
            if name == key {
            } else {
                if crate::table::nmap_contains(def_attr_entries(d), name) {
                    assert(crate::table::nmap_contains(rest, name));
                }
            }
        }
        assert forall|name: Seq<char>|
            crate::table::nmap_contains(def_attr_entries(d), name) implies crate::table::nmap_index(
            def_attr_entries(d),
            name,
        ) == resolved_node_attrs(crate::table::nmap_index(d, name)) by {
            if name == key {
            } else {
                assert(crate::table::nmap_contains(rest, name));
                assert(crate::table::nmap_index(def_attr_entries(d), name) == crate::table::nmap_index(
                    rest,
                    name,
                ));
            }
        }
    }
}

/// Keys and values of `def_connect_entries`.
pub proof fn lemma_def_connect_entries(d: crate::ast::DefinitionsV)
    requires
        crate::table::nmap_nodup(d),
    ensures
        crate::table::nmap_nodup(def_connect_entries(d)),
        forall|name: Seq<char>|
            crate::table::nmap_contains(def_connect_entries(d), name) <==> (crate::table::nmap_contains(
                d,
                name,
            ) && !node_has_dup(crate::table::nmap_index(d, name)) && first_connect(crate::table::nmap_index(d, name)) is Some),
        forall|name: Seq<char>|
            crate::table::nmap_contains(def_connect_entries(d), name) ==> crate::table::nmap_index(
                def_connect_entries(d),
                name,
            ) == first_connect(crate::table::nmap_index(d, name))->Some_0,
    decreases d.len(),
{
    if d.len() > 0 {
        assert(crate::table::nmap_nodup(d.drop_last())) by {
            assert(forall|i: int, j: int|
                0 <= i < j < d.drop_last().len() ==> d.drop_last()[i].0 == d[i].0
                    && d.drop_last()[j].0 == d[j].0);
        }
        lemma_def_connect_entries(d.drop_last());
        let rest = def_connect_entries(d.drop_last());
        let key = d.last().0;
        crate::table::lemma_nmap_index_at(d, d.len() - 1);
        assert(!crate::table::nmap_contains(d.drop_last(), key)) by {
            if crate::table::nmap_contains(d.drop_last(), key) {
                let i = choose|i: int|
                    0 <= i < d.drop_last().len() && d.drop_last()[i].0 == key;
                assert(d[i].0 == d[d.len() - 1].0);
            }
        }
        assert(!crate::table::nmap_contains(rest, key));
        assert forall|name: Seq<char>|
            name != key && crate::table::nmap_contains(d.drop_last(), name) implies #[trigger]
        crate::table::nmap_index(d.drop_last(), name) == crate::table::nmap_index(d, name)
            && crate::table::nmap_contains(d, name) by {
            let i = choose|i: int| 0 <= i < d.drop_last().len() && d.drop_last()[i].0 == name;
            assert(d[i].0 == name);
            crate::table::lemma_nmap_index_at(d, i);
            crate::table::lemma_nmap_index_at(d.drop_last(), i);
        }
        assert forall|name: Seq<char>|
            name != key && crate::table::nmap_contains(d, name) implies crate::table::nmap_contains(
            d.drop_last(),
            name,
        ) by {
            let i = choose|i: int| 0 <= i < d.len() && d[i].0 == name;
            assert(i != d.len() - 1);
            assert(d.drop_last()[i].0 == name);
        }
        if !node_has_dup(d.last().1) && first_connect(d.last().1) is Some {
            crate::table::lemma_nmap_push(rest, (key, first_connect(d.last().1)->Some_0));
        } else {
            assert(def_connect_entries(d) == rest);
        }
        assert forall|name: Seq<char>|
            crate::table::nmap_contains(def_connect_entries(d), name) <==> (crate::table::nmap_contains(
                d,
                name,
            ) && !node_has_dup(crate::table::nmap_index(d, name)) && first_connect(crate::table::nmap_index(d, name)) is Some) by {
            if name == key {
            } else {
                if crate::table::nmap_contains(def_connect_entries(d), name) {
                    assert(crate::table::nmap_contains(rest, name));
                }
            }
        }
        assert forall|name: Seq<char>|
            crate::table::nmap_contains(def_connect_entries(d), name) implies crate::table::nmap_index(
            def_connect_entries(d),
            name,
        ) == first_connect(crate::table::nmap_index(d, name))->Some_0 by {
            if name == key {
            } else {
                assert(crate::table::nmap_contains(rest, name));
                assert(crate::table::nmap_index(def_connect_entries(d), name) == crate::table::nmap_index(
                    rest,
                    name,
                ));
            }
        }
    }
}

/// Keys and values of `grid_attr_entries`.
pub proof fn lemma_grid_attr_entries(d: Seq<(IndexPos, crate::ast::NodeV)>)
    requires
        crate::table::pmap_nodup(d),
    ensures
        crate::table::pmap_nodup(grid_attr_entries(d)),
        forall|name: IndexPos|
            crate::table::pmap_contains(grid_attr_entries(d), name) <==> (crate::table::pmap_contains(
                d,
                name,
            ) && !node_has_dup(crate::table::pmap_index(d, name).attrs)),
        forall|name: IndexPos|
            crate::table::pmap_contains(grid_attr_entries(d), name) ==> crate::table::pmap_index(
                grid_attr_entries(d),
                name,
            ) == resolved_node_attrs(crate::table::pmap_index(d, name).attrs),
    decreases d.len(),
{
    if d.len() > 0 {
        assert(crate::table::pmap_nodup(d.drop_last())) by {
            assert(forall|i: int, j: int|
                0 <= i < j < d.drop_last().len() ==> d.drop_last()[i].0 == d[i].0
                    && d.drop_last()[j].0 == d[j].0);
        }
        lemma_grid_attr_entries(d.drop_last());
        let rest = grid_attr_entries(d.drop_last());
        let key = d.last().0;
        crate::table::lemma_pmap_index_at(d, d.len() - 1);
        assert(!crate::table::pmap_contains(d.drop_last(), key)) by {
            if crate::table::pmap_contains(d.drop_last(), key) {
                let i = choose|i: int|
                    0 <= i < d.drop_last().len() && d.drop_last()[i].0 == key;
                assert(d[i].0 == d[d.len() - 1].0);
            }
        }
        assert(!crate::table::pmap_contains(rest, key));
        assert forall|name: IndexPos|
            name != key && crate::table::pmap_contains(d.drop_last(), name) implies #[trigger]
        crate::table::pmap_index(d.drop_last(), name) == crate::table::pmap_index(d, name)
            && crate::table::pmap_contains(d, name) by {
            let i = choose|i: int| 0 <= i < d.drop_last().len() && d.drop_last()[i].0 == name;
            assert(d[i].0 == name);
            crate::table::lemma_pmap_index_at(d, i);
            crate::table::lemma_pmap_index_at(d.drop_last(), i);
        }
        assert forall|name: IndexPos|
            name != key && crate::table::pmap_contains(d, name) implies crate::table::pmap_contains(
            d.drop_last(),
            name,
        ) by {
            let i = choose|i: int| 0 <= i < d.len() && d[i].0 == name;
            assert(i != d.len() - 1);
            assert(d.drop_last()[i].0 == name);
        }
        if !node_has_dup(d.last().1.attrs) {
            crate::table::lemma_pmap_push(rest, (key, resolved_node_attrs(d.last().1.attrs)));
        } else {
            assert(grid_attr_entries(d) == rest);
        }
        assert forall|name: IndexPos|
            crate::table::pmap_contains(grid_attr_entries(d), name) <==> (crate::table::pmap_contains(
                d,
                name,
            ) && !node_has_dup(crate::table::pmap_index(d, name).attrs)) by {
            if name == key {
            } else {
                if crate::table::pmap_contains(grid_attr_entries(d), name) {
                    assert(crate::table::pmap_contains(rest, name));
                }
            }
        }
        assert forall|name: IndexPos|
            crate::table::pmap_contains(grid_attr_entries(d), name) implies crate::table::pmap_index(
            grid_attr_entries(d),
            name,
        ) == resolved_node_attrs(crate::table::pmap_index(d, name).attrs) by {
            if name == key {
            } else {
                assert(crate::table::pmap_contains(rest, name));
                assert(crate::table::pmap_index(grid_attr_entries(d), name) == crate::table::pmap_index(
                    rest,
                    name,
                ));
            }
        }
    }
}

/// Keys and values of `grid_connect_entries`.
pub proof fn lemma_grid_connect_entries(d: Seq<(IndexPos, crate::ast::NodeV)>)
    requires
        crate::table::pmap_nodup(d),
    ensures
        crate::table::pmap_nodup(grid_connect_entries(d)),
        forall|name: IndexPos|
            crate::table::pmap_contains(grid_connect_entries(d), name) <==> (crate::table::pmap_contains(
                d,
                name,
            ) && !node_has_dup(crate::table::pmap_index(d, name).attrs) && first_connect(crate::table::pmap_index(d, name).attrs) is Some),
        forall|name: IndexPos|
            crate::table::pmap_contains(grid_connect_entries(d), name) ==> crate::table::pmap_index(
                grid_connect_entries(d),
                name,
            ) == first_connect(crate::table::pmap_index(d, name).attrs)->Some_0,
    decreases d.len(),
{
    if d.len() > 0 {
        assert(crate::table::pmap_nodup(d.drop_last())) by {
            assert(forall|i: int, j: int|
                0 <= i < j < d.drop_last().len() ==> d.drop_last()[i].0 == d[i].0
                    && d.drop_last()[j].0 == d[j].0);
        }
        lemma_grid_connect_entries(d.drop_last());
        let rest = grid_connect_entries(d.drop_last());
        let key = d.last().0;
        crate::table::lemma_pmap_index_at(d, d.len() - 1);
        assert(!crate::table::pmap_contains(d.drop_last(), key)) by {
            if crate::table::pmap_contains(d.drop_last(), key) {
                let i = choose|i: int|
                    0 <= i < d.drop_last().len() && d.drop_last()[i].0 == key;
                assert(d[i].0 == d[d.len() - 1].0);
            }
        }
        assert(!crate::table::pmap_contains(rest, key));
        assert forall|name: IndexPos|
            name != key && crate::table::pmap_contains(d.drop_last(), name) implies #[trigger]
        crate::table::pmap_index(d.drop_last(), name) == crate::table::pmap_index(d, name)
            && crate::table::pmap_contains(d, name) by {
            let i = choose|i: int| 0 <= i < d.drop_last().len() && d.drop_last()[i].0 == name;
            assert(d[i].0 == name);
            crate::table::lemma_pmap_index_at(d, i);
            crate::table::lemma_pmap_index_at(d.drop_last(), i);
        }
        assert forall|name: IndexPos|
            name != key && crate::table::pmap_contains(d, name) implies crate::table::pmap_contains(
            d.drop_last(),
            name,
        ) by {
            let i = choose|i: int| 0 <= i < d.len() && d[i].0 == name;
            assert(i != d.len() - 1);
            assert(d.drop_last()[i].0 == name);
        }
        if !node_has_dup(d.last().1.attrs) && first_connect(d.last().1.attrs) is Some {
            crate::table::lemma_pmap_push(rest, (key, first_connect(d.last().1.attrs)->Some_0));
        } else {
            assert(grid_connect_entries(d) == rest);
        }
        assert forall|name: IndexPos|
            crate::table::pmap_contains(grid_connect_entries(d), name) <==> (crate::table::pmap_contains(
                d,
                name,
            ) && !node_has_dup(crate::table::pmap_index(d, name).attrs) && first_connect(crate::table::pmap_index(d, name).attrs) is Some) by {
            if name == key {
            } else {
                if crate::table::pmap_contains(grid_connect_entries(d), name) {
                    assert(crate::table::pmap_contains(rest, name));
                }
            }
        }
        assert forall|name: IndexPos|
            crate::table::pmap_contains(grid_connect_entries(d), name) implies crate::table::pmap_index(
            grid_connect_entries(d),
            name,
        ) == first_connect(crate::table::pmap_index(d, name).attrs)->Some_0 by {
            if name == key {
            } else {
                assert(crate::table::pmap_contains(rest, name));
                assert(crate::table::pmap_index(grid_connect_entries(d), name) == crate::table::pmap_index(
                    rest,
                    name,
                ));
            }
        }
    }
}

/// Keys and values of `conn_ok_entries`.
pub proof fn lemma_conn_ok_entries(m: Seq<(Seq<char>, Seq<ConnectionDescriptorV>)>)
    requires
        crate::table::nmap_nodup(m),
    ensures
        crate::table::nmap_nodup(conn_ok_entries(m)),
        conn_ok_entries(m).len() == m.len(),
        forall|t: int|
            0 <= t < m.len() ==> (#[trigger] conn_ok_entries(m)[t]) == (m[t].0, resolve_descs(
                m[t].1,
            )),
        forall|name: Seq<char>|
            crate::table::nmap_contains(conn_ok_entries(m), name) <==> crate::table::nmap_contains(
                m,
                name,
            ),
        forall|name: Seq<char>|
            crate::table::nmap_contains(m, name) ==> crate::table::nmap_index(
                conn_ok_entries(m),
                name,
            ) == resolve_descs(crate::table::nmap_index(m, name)),
    decreases m.len(),
{
    if m.len() > 0 {
        assert(crate::table::nmap_nodup(m.drop_last())) by {
            assert(forall|i: int, j: int|
                0 <= i < j < m.drop_last().len() ==> m.drop_last()[i].0 == m[i].0
                    && m.drop_last()[j].0 == m[j].0);
        }
        lemma_conn_ok_entries(m.drop_last());
        assert forall|t: int|
            0 <= t < m.len() implies (#[trigger] conn_ok_entries(m)[t]) == (m[t].0,
        resolve_descs(m[t].1)) by {
            if t < m.len() - 1 {
                assert(conn_ok_entries(m.drop_last())[t] == (m.drop_last()[t].0, resolve_descs(
                    m.drop_last()[t].1,
                )));
            }
        }
        assert forall|name: Seq<char>|
            crate::table::nmap_contains(conn_ok_entries(m), name)
                <==> crate::table::nmap_contains(m, name) by {
            if crate::table::nmap_contains(conn_ok_entries(m), name) {
                let i = choose|i: int|
                    0 <= i < conn_ok_entries(m).len() && conn_ok_entries(m)[i].0 == name;
                assert(m[i].0 == name);
            }
            if crate::table::nmap_contains(m, name) {
                let i = choose|i: int| 0 <= i < m.len() && m[i].0 == name;
                assert(conn_ok_entries(m)[i].0 == name);
            }
        }
        assert forall|name: Seq<char>|
            crate::table::nmap_contains(m, name) implies crate::table::nmap_index(
            conn_ok_entries(m),
            name,
        ) == resolve_descs(crate::table::nmap_index(m, name)) by {
            let i = choose|i: int| 0 <= i < m.len() && m[i].0 == name;
            crate::table::lemma_nmap_index_at(m, i);
            assert(conn_ok_entries(m)[i].0 == name);
            crate::table::lemma_nmap_index_at(conn_ok_entries(m), i);
        }
    }
}

/// Keys and values of `conn_ok_entries_p`.
pub proof fn lemma_conn_ok_entries_p(m: Seq<(IndexPos, Seq<ConnectionDescriptorV>)>)
    requires
        crate::table::pmap_nodup(m),
    ensures
        crate::table::pmap_nodup(conn_ok_entries_p(m)),
        conn_ok_entries_p(m).len() == m.len(),
        forall|t: int|
            0 <= t < m.len() ==> (#[trigger] conn_ok_entries_p(m)[t]) == (m[t].0, resolve_descs(
                m[t].1,
            )),
        forall|p: IndexPos|
            crate::table::pmap_contains(conn_ok_entries_p(m), p)
                <==> crate::table::pmap_contains(m, p),
        forall|p: IndexPos|
            crate::table::pmap_contains(m, p) ==> crate::table::pmap_index(
                conn_ok_entries_p(m),
                p,
            ) == resolve_descs(crate::table::pmap_index(m, p)),
    decreases m.len(),
{
    if m.len() > 0 {
        assert(crate::table::pmap_nodup(m.drop_last())) by {
            assert(forall|i: int, j: int|
                0 <= i < j < m.drop_last().len() ==> m.drop_last()[i].0 == m[i].0
                    && m.drop_last()[j].0 == m[j].0);
        }
        lemma_conn_ok_entries_p(m.drop_last());
        assert forall|t: int|
            0 <= t < m.len() implies (#[trigger] conn_ok_entries_p(m)[t]) == (m[t].0,
        resolve_descs(m[t].1)) by {
            if t < m.len() - 1 {
                assert(conn_ok_entries_p(m.drop_last())[t] == (m.drop_last()[t].0,
                resolve_descs(m.drop_last()[t].1)));
            }
        }
        assert forall|p: IndexPos|
            crate::table::pmap_contains(conn_ok_entries_p(m), p)
                <==> crate::table::pmap_contains(m, p) by {
            if crate::table::pmap_contains(conn_ok_entries_p(m), p) {
                let i = choose|i: int|
                    0 <= i < conn_ok_entries_p(m).len() && conn_ok_entries_p(m)[i].0 == p;
                assert(m[i].0 == p);
            }
            if crate::table::pmap_contains(m, p) {
                let i = choose|i: int| 0 <= i < m.len() && m[i].0 == p;
                assert(conn_ok_entries_p(m)[i].0 == p);
            }
        }
        assert forall|p: IndexPos|
            crate::table::pmap_contains(m, p) implies crate::table::pmap_index(
            conn_ok_entries_p(m),
            p,
        ) == resolve_descs(crate::table::pmap_index(m, p)) by {
            let i = choose|i: int| 0 <= i < m.len() && m[i].0 == p;
            crate::table::lemma_pmap_index_at(m, i);
            assert(conn_ok_entries_p(m)[i].0 == p);
            crate::table::lemma_pmap_index_at(conn_ok_entries_p(m), i);
        }
    }
}

/// An empty grid-attribute error report means every cell is clean.
pub proof fn lemma_grid_err_empty(c: Seq<(IndexPos, crate::ast::NodeV)>)
    ensures
        (grid_err_entries(c).len() == 0) <==> (forall|t: int|
            0 <= t < c.len() ==> !node_has_dup((#[trigger] c[t]).1.attrs)),
    decreases c.len(),
{
    if c.len() > 0 {
        lemma_grid_err_empty(c.drop_last());
        if grid_err_entries(c).len() == 0 {
            assert forall|t: int| 0 <= t < c.len() implies !node_has_dup(
                (#[trigger] c[t]).1.attrs,
            ) by {
                if t < c.len() - 1 {
                    assert(c.drop_last()[t] == c[t]);
                }
            }
        } else {
        }
        if forall|t: int| 0 <= t < c.len() ==> !node_has_dup((#[trigger] c[t]).1.attrs) {
            assert(forall|t: int|
                0 <= t < c.drop_last().len() ==> c.drop_last()[t] == c[t]);
        }
    }
}

} // verus!

verus! {

// ---------------------------------------------------------------------------
// The validated diagram and the error taxonomy.
// ---------------------------------------------------------------------------

/// The closed error taxonomy of the pipeline; each variant carries every
/// offender of its class, never just the first.
#[derive(Debug, PartialEq, Eq)]
pub enum LogicError {
    /// A label was used more than once: label to all of its positions.
    DuplicateLabels(Vec<(Identifier, Vec<IndexPos>)>),
    /// There is more than one definition for an identifier.
    DuplicateDefinitions(Vec<Identifier>),
    /// Definitions with duplicate node attributes.
    DuplicateNodeAttributesInDefinitions(Vec<(Identifier, Vec<AttrKind>)>),
    /// Grid nodes with duplicate node attributes.
    DuplicateNodeAttributesInGrid(Vec<(IndexPos, Vec<AttrKind>)>),
    /// Connections inside the `define` block with duplicate attributes.
    DuplicateConnectionAttributesInDefinitions(Vec<(Identifier, Vec<(usize, Vec<AttrKind>)>)>),
    /// Connections inside the grid with duplicate attributes.
    DuplicateConnectionAttributesInGrid(Vec<(IndexPos, Vec<(usize, Vec<AttrKind>)>)>),
    /// Connections whose destinations could not be resolved.
    InvalidDestination(Vec<(IndexPos, Vec<(usize, crate::grid::ResolutionError)>)>),
}

/// The validated diagram: the grid index, the resolved per-node attributes
/// and the resolved connections.
#[derive(Debug)]
pub struct Flou {
    pub grid: crate::grid::GridIndex,
    pub connections: Vec<Connection>,
    pub node_attributes: Vec<(IndexPos, NodeAttributes)>,
}

/// Whether some identifier is defined more than once.
pub open spec fn dup_defs(d: crate::ast::DefinitionsV) -> bool {
    exists|name: Seq<char>| crate::table::nmap_count(d, name) >= 2
}

/// Whether some label occurs at two or more positions.
pub open spec fn labels_dup(c: Seq<(IndexPos, crate::ast::NodeV)>) -> bool {
    exists|l: Seq<char>| label_count(c, l) >= 2
}

/// The merged connection list of one occupied cell: the cell's own
/// `connect` list if it sets one, else the list of its definition.
pub open spec fn cell_conns(
    d: crate::ast::DefinitionsV,
    c: Seq<(IndexPos, crate::ast::NodeV)>,
    p: IndexPos,
) -> Option<Seq<UnresolvedConnectionV>> {
    if crate::table::pmap_contains(grid_connect_entries(c), p) {
        Some(resolve_descs(crate::table::pmap_index(grid_connect_entries(c), p)))
    } else if crate::table::pmap_contains(c, p) && crate::table::nmap_contains(
        def_connect_entries(d),
        crate::table::pmap_index(c, p).id,
    ) {
        Some(
            resolve_descs(
                crate::table::nmap_index(
                    def_connect_entries(d),
                    crate::table::pmap_index(c, p).id,
                ),
            ),
        )
    } else {
        None
    }
}

/// The merged node attributes of one occupied cell: definition fields
/// overwritten by the fields the cell sets itself.
pub open spec fn cell_attrs(
    d: crate::ast::DefinitionsV,
    c: Seq<(IndexPos, crate::ast::NodeV)>,
    p: IndexPos,
) -> NodeAttributesV {
    if crate::table::nmap_contains(def_attr_entries(d), crate::table::pmap_index(c, p).id) {
        NodeAttributes::spec_overwrite(
            crate::table::nmap_index(def_attr_entries(d), crate::table::pmap_index(c, p).id),
            crate::table::pmap_index(grid_attr_entries(c), p),
        )
    } else {
        crate::table::pmap_index(grid_attr_entries(c), p)
    }
}

/// Whether a raw destination resolves from an origin over the given cells.
pub open spec fn dest_resolves(
    c: Seq<(IndexPos, crate::ast::NodeV)>,
    p: IndexPos,
    to: DestinationV,
) -> bool {
    match to {
        DestinationV::Itself => true,
        DestinationV::Relative(dir) => exists|q: IndexPos|
            crate::grid::on_ray(p, dir, q) && crate::table::pmap_contains(c, q),
        DestinationV::Label(l) => label_count(c, l) == 1,
    }
}

/// Whether some connection of one cell fails to resolve.
pub open spec fn cell_has_dest_err(
    d: crate::ast::DefinitionsV,
    c: Seq<(IndexPos, crate::ast::NodeV)>,
    p: IndexPos,
) -> bool {
    match cell_conns(d, c, p) {
        Some(ucs) => exists|j: int|
            0 <= j < ucs.len() && !dest_resolves(c, p, (#[trigger] ucs[j]).to),
        None => false,
    }
}

/// Whether any connection of the document fails to resolve.
pub open spec fn dest_errs(
    d: crate::ast::DefinitionsV,
    c: Seq<(IndexPos, crate::ast::NodeV)>,
) -> bool {
    exists|p: IndexPos|
        crate::table::pmap_contains(c, p) && #[trigger] cell_has_dest_err(d, c, p)
}

/// One origin's failure list is nonempty exactly when some of its
/// destinations fails.
pub proof fn lemma_entry_err_exists(
    g: crate::grid::GridIndex,
    labels: Seq<(Seq<char>, IndexPos)>,
    p: IndexPos,
    ucs: Seq<UnresolvedConnectionV>,
)
    ensures
        (entry_err_list(g, labels, p, ucs).len() > 0) <==> exists|j: int|
            0 <= j < ucs.len() && g.spec_normalize(p, (#[trigger] ucs[j]).to, labels) is Err,
    decreases ucs.len(),
{
    if ucs.len() > 0 {
        lemma_entry_err_exists(g, labels, p, ucs.drop_last());
        if entry_err_list(g, labels, p, ucs.drop_last()).len() > 0 {
            let j = choose|j: int|
                0 <= j < ucs.drop_last().len() && g.spec_normalize(
                    p,
                    (#[trigger] ucs.drop_last()[j]).to,
                    labels,
                ) is Err;
            assert(ucs[j] == ucs.drop_last()[j]);
        }
        if g.spec_normalize(p, ucs.last().to, labels) is Err {
            assert(g.spec_normalize(p, ucs[ucs.len() - 1].to, labels) is Err);
        }
        if exists|j: int|
            0 <= j < ucs.len() && g.spec_normalize(p, (#[trigger] ucs[j]).to, labels) is Err {
            let j = choose|j: int|
                0 <= j < ucs.len() && g.spec_normalize(p, (#[trigger] ucs[j]).to, labels) is Err;
            if j < ucs.len() - 1 {
                assert(ucs.drop_last()[j] == ucs[j]);
            }
        }
    }
}

/// Every entry of the failure report belongs to an entry of the map and
/// carries that origin's exact failure list.
pub proof fn lemma_res_err_keys(
    g: crate::grid::GridIndex,
    labels: Seq<(Seq<char>, IndexPos)>,
    m: Seq<(IndexPos, Seq<UnresolvedConnectionV>)>,
    t: int,
)
    requires
        0 <= t < res_err_entries(g, labels, m).len(),
    ensures
        exists|tm: int|
            0 <= tm < m.len() && (#[trigger] m[tm]).0 == res_err_entries(g, labels, m)[t].0
                && res_err_entries(g, labels, m)[t].1 == entry_err_list(
                g,
                labels,
                m[tm].0,
                m[tm].1,
            ),
    decreases m.len(),
{
    if m.len() > 0 {
        let rest = res_err_entries(g, labels, m.drop_last());
        if t < rest.len() {
            lemma_res_err_keys(g, labels, m.drop_last(), t);
            let tm = choose|tm: int|
                0 <= tm < m.drop_last().len() && (#[trigger] m.drop_last()[tm]).0 == rest[t].0
                    && rest[t].1 == entry_err_list(
                    g,
                    labels,
                    m.drop_last()[tm].0,
                    m.drop_last()[tm].1,
                );
            assert(m[tm] == m.drop_last()[tm]);
            assert(0 <= tm < m.len() && m[tm].0 == res_err_entries(g, labels, m)[t].0
                && res_err_entries(g, labels, m)[t].1 == entry_err_list(
                g,
                labels,
                m[tm].0,
                m[tm].1,
            ));
        } else {
            assert(m[m.len() - 1].0 == res_err_entries(g, labels, m)[t].0);
        }
    }
}

/// The failure report is nonempty exactly when some destination of some
/// entry fails.
pub proof fn lemma_res_err_exists(
    g: crate::grid::GridIndex,
    labels: Seq<(Seq<char>, IndexPos)>,
    m: Seq<(IndexPos, Seq<UnresolvedConnectionV>)>,
)
    ensures
        (res_err_entries(g, labels, m).len() > 0) <==> exists|t: int, j: int|
            0 <= t < m.len() && 0 <= j < m[t].1.len() && g.spec_normalize(
                m[t].0,
                (#[trigger] m[t].1[j]).to,
                labels,
            ) is Err,
    decreases m.len(),
{
    if m.len() > 0 {
        lemma_res_err_exists(g, labels, m.drop_last());
        lemma_entry_err_exists(g, labels, m.last().0, m.last().1);
        if res_err_entries(g, labels, m.drop_last()).len() > 0 {
            let (t, j): (int, int) = choose|t: int, j: int|
                0 <= t < m.drop_last().len() && 0 <= j < m.drop_last()[t].1.len()
                    && g.spec_normalize(
                    m.drop_last()[t].0,
                    (#[trigger] m.drop_last()[t].1[j]).to,
                    labels,
                ) is Err;
            assert(m[t] == m.drop_last()[t]);
            assert(0 <= t < m.len() && 0 <= j < m[t].1.len() && g.spec_normalize(
                m[t].0,
                m[t].1[j].to,
                labels,
            ) is Err);
        }
        if entry_err_list(g, labels, m.last().0, m.last().1).len() > 0 {
            let j = choose|j: int|
                0 <= j < m.last().1.len() && g.spec_normalize(
                    m.last().0,
                    (#[trigger] m.last().1[j]).to,
                    labels,
                ) is Err;
            assert(0 <= m.len() - 1 < m.len() && 0 <= j < m[m.len() - 1].1.len()
                && g.spec_normalize(m[m.len() - 1].0, m[m.len() - 1].1[j].to, labels) is Err);
        }
        if exists|t: int, j: int|
            0 <= t < m.len() && 0 <= j < m[t].1.len() && g.spec_normalize(
                m[t].0,
                (#[trigger] m[t].1[j]).to,
                labels,
            ) is Err {
            let (t, j): (int, int) = choose|t: int, j: int|
                0 <= t < m.len() && 0 <= j < m[t].1.len() && g.spec_normalize(
                    m[t].0,
                    (#[trigger] m[t].1[j]).to,
                    labels,
                ) is Err;
            if t < m.len() - 1 {
                assert(m.drop_last()[t] == m[t]);
                assert(0 <= t < m.drop_last().len() && 0 <= j < m.drop_last()[t].1.len()
                    && g.spec_normalize(
                    m.drop_last()[t].0,
                    m.drop_last()[t].1[j].to,
                    labels,
                ) is Err);
            }
        }
    }
}

} // verus!

verus! {

/// All definition-level validation passes.
pub open spec fn defs_clean(d: crate::ast::DefinitionsV) -> bool {
    &&& !dup_defs(d)
    &&& def_err_entries(d).len() == 0
    &&& conn_err_entries(def_connect_entries(d)).len() == 0
}

/// All grid-level attribute validation passes.
pub open spec fn grid_clean(c: Seq<(IndexPos, crate::ast::NodeV)>) -> bool {
    &&& grid_err_entries(c).len() == 0
    &&& conn_err_entries_p(grid_connect_entries(c)).len() == 0
}

impl Flou {
    /// Structural well-formedness of a validated diagram.
    pub open spec fn wf(self) -> bool {
        &&& self.grid.wf()
        &&& crate::table::pmap_nodup(self.node_attributes.deep_view())
        &&& forall|i: int|
            0 <= i < self.connections@.len() ==> (#[trigger] self.connections@[i]).from.0
                .spec_in_bounds(self.grid.size) && self.connections@[i].to.0.spec_in_bounds(
                self.grid.size,
            )
    }
}

/// Every connection a clean entry list resolves to starts at the entry's
/// origin and ends in bounds.
pub proof fn lemma_entry_connections_bounds(
    g: crate::grid::GridIndex,
    labels: Seq<(Seq<char>, IndexPos)>,
    p: IndexPos,
    ucs: Seq<UnresolvedConnectionV>,
    i: int,
)
    requires
        g.wf(),
        p.spec_in_bounds(g.size),
        forall|l: Seq<char>|
            crate::table::nmap_contains(labels, l) ==> (#[trigger] crate::table::nmap_index(
                labels,
                l,
            )).spec_in_bounds(g.size),
        entry_err_list(g, labels, p, ucs).len() == 0,
        0 <= i < entry_connections(g, labels, p, ucs).len(),
    ensures
        entry_connections(g, labels, p, ucs)[i].from.0.spec_in_bounds(g.size),
        entry_connections(g, labels, p, ucs)[i].to.0.spec_in_bounds(g.size),
    decreases ucs.len(),
{
    if ucs.len() > 0 {
        if i < entry_connections(g, labels, p, ucs).len() - 1 {
            lemma_entry_connections_bounds(g, labels, p, ucs.drop_last(), i);
        } else {
            let uc = ucs.last();
            match g.spec_normalize(p, uc.to, labels) {
                Ok(q) => {
                    match uc.to {
                        DestinationV::Itself => {},
                        DestinationV::Relative(dir) => {
                            if g.spec_walk(p, dir) is Some {
                                let h = choose|h: IndexPos| g.spec_hit(p, dir, h);
                                g.lemma_occupied_in_bounds(h);
                            }
                        },
                        DestinationV::Label(l) => {},
                    }
                },
                Err(_) => {
                    assert(entry_err_list(g, labels, p, ucs).len() > 0);
                },
            }
        }
    }
}

/// Every resolved connection of a fully clean map has in-bounds endpoints.
pub proof fn lemma_conns_flat_bounds(
    g: crate::grid::GridIndex,
    labels: Seq<(Seq<char>, IndexPos)>,
    m: Seq<(IndexPos, Seq<UnresolvedConnectionV>)>,
    i: int,
)
    requires
        g.wf(),
        forall|t: int| 0 <= t < m.len() ==> (#[trigger] m[t]).0.spec_in_bounds(g.size),
        forall|l: Seq<char>|
            crate::table::nmap_contains(labels, l) ==> (#[trigger] crate::table::nmap_index(
                labels,
                l,
            )).spec_in_bounds(g.size),
        res_err_entries(g, labels, m).len() == 0,
        0 <= i < conns_flat(g, labels, m).len(),
    ensures
        conns_flat(g, labels, m)[i].from.0.spec_in_bounds(g.size),
        conns_flat(g, labels, m)[i].to.0.spec_in_bounds(g.size),
    decreases m.len(),
{
    if m.len() > 0 {
        let rest = conns_flat(g, labels, m.drop_last());
        assert(forall|t: int|
            0 <= t < m.drop_last().len() ==> m.drop_last()[t] == m[t]);
        if i < rest.len() {
            lemma_conns_flat_bounds(g, labels, m.drop_last(), i);
            assert(conns_flat(g, labels, m)[i] == rest[i]);
        } else {
            let inner = entry_connections(g, labels, m.last().0, m.last().1);
            assert(conns_flat(g, labels, m)[i] == inner[i - rest.len()]);
            assert(entry_err_list(g, labels, m.last().0, m.last().1).len() == 0);
            assert(m[m.len() - 1].0.spec_in_bounds(g.size));
            lemma_entry_connections_bounds(
                g,
                labels,
                m.last().0,
                m.last().1,
                i - rest.len(),
            );
        }
    }
}

} // verus!

verus! {

impl Flou {
    /// Runs the whole merge-and-validate pipeline over a parsed document.
    /// The phases run in order — definition uniqueness, definition
    /// attributes, definition connection attributes, grid attributes, grid
    /// connection attributes, label uniqueness, destination resolution — and
    /// the first failing phase aborts with its complete error class.
    pub fn from_document(document: crate::ast::Document) -> (r: Result<Flou, LogicError>)
        requires
            document.grid.spec_fits(),
        ensures
            (r matches Err(LogicError::DuplicateDefinitions(_))) <==> dup_defs(
                document.definitions.deep_view(),
            ),
            r matches Err(LogicError::DuplicateDefinitions(e)) ==> (forall|n: Seq<char>|
                e.deep_view().contains(n) <==> crate::table::nmap_count(
                    document.definitions.deep_view(),
                    n,
                ) >= 2) && e.deep_view().no_duplicates(),
            (r matches Err(LogicError::DuplicateNodeAttributesInDefinitions(_))) <==> (!dup_defs(
                document.definitions.deep_view(),
            ) && def_err_entries(document.definitions.deep_view()).len() > 0),
            r matches Err(LogicError::DuplicateNodeAttributesInDefinitions(e)) ==> e.deep_view()
                == def_err_entries(document.definitions.deep_view()),
            (r matches Err(LogicError::DuplicateConnectionAttributesInDefinitions(_))) <==> (
            !dup_defs(document.definitions.deep_view()) && def_err_entries(
                document.definitions.deep_view(),
            ).len() == 0 && conn_err_entries(
                def_connect_entries(document.definitions.deep_view()),
            ).len() > 0),
            r matches Err(LogicError::DuplicateConnectionAttributesInDefinitions(e))
                ==> e.deep_view() == conn_err_entries(
                def_connect_entries(document.definitions.deep_view()),
            ),
            (r matches Err(LogicError::DuplicateNodeAttributesInGrid(_))) <==> (defs_clean(
                document.definitions.deep_view(),
            ) && grid_err_entries(cells_of_grid(document.grid@)).len() > 0),
            r matches Err(LogicError::DuplicateNodeAttributesInGrid(e)) ==> e.deep_view()
                == grid_err_entries(cells_of_grid(document.grid@)),
            (r matches Err(LogicError::DuplicateConnectionAttributesInGrid(_))) <==> (defs_clean(
                document.definitions.deep_view(),
            ) && grid_err_entries(cells_of_grid(document.grid@)).len() == 0
                && conn_err_entries_p(
                grid_connect_entries(cells_of_grid(document.grid@)),
            ).len() > 0),
            r matches Err(LogicError::DuplicateConnectionAttributesInGrid(e)) ==> e.deep_view()
                == conn_err_entries_p(grid_connect_entries(cells_of_grid(document.grid@))),
            (r matches Err(LogicError::DuplicateLabels(_))) <==> (defs_clean(
                document.definitions.deep_view(),
            ) && grid_clean(cells_of_grid(document.grid@)) && labels_dup(
                cells_of_grid(document.grid@),
            )),
            r matches Err(LogicError::DuplicateLabels(e)) ==> {
                &&& crate::table::nmap_nodup(e.deep_view())
                &&& forall|l: Seq<char>|
                    crate::table::nmap_contains(e.deep_view(), l) <==> label_count(
                        cells_of_grid(document.grid@),
                        l,
                    ) >= 2
                &&& forall|l: Seq<char>|
                    crate::table::nmap_contains(e.deep_view(), l)
                        ==> crate::table::nmap_index(e.deep_view(), l) == label_positions(
                        cells_of_grid(document.grid@),
                        l,
                    )
            },
            (r matches Err(LogicError::InvalidDestination(_))) <==> (defs_clean(
                document.definitions.deep_view(),
            ) && grid_clean(cells_of_grid(document.grid@)) && !labels_dup(
                cells_of_grid(document.grid@),
            ) && dest_errs(document.definitions.deep_view(), cells_of_grid(document.grid@))),
            r matches Err(LogicError::InvalidDestination(e)) ==> e.deep_view().len() > 0
                && (forall|t: int|
                0 <= t < e.deep_view().len() ==> crate::table::pmap_contains(
                    cells_of_grid(document.grid@),
                    (#[trigger] e.deep_view()[t]).0,
                )),
            (r is Ok) <==> (defs_clean(document.definitions.deep_view()) && grid_clean(
                cells_of_grid(document.grid@),
            ) && !labels_dup(cells_of_grid(document.grid@)) && !dest_errs(
                document.definitions.deep_view(),
                cells_of_grid(document.grid@),
            )),
            r matches Ok(f) ==> {
                &&& f.wf()
                &&& f.grid.size.x == document.grid.spec_width()
                &&& f.grid.size.y == document.grid.spec_height()
                &&& forall|p: IndexPos|
                    #[trigger] f.grid.spec_occupied(p) <==> crate::table::pmap_contains(
                        cells_of_grid(document.grid@),
                        p,
                    )
                &&& forall|p: IndexPos|
                    f.grid.spec_occupied(p) ==> #[trigger] f.grid.spec_id_at(p)
                        == crate::table::pmap_index(cells_of_grid(document.grid@), p).id
                &&& forall|p: IndexPos|
                    crate::table::pmap_contains(f.node_attributes.deep_view(), p)
                        <==> crate::table::pmap_contains(cells_of_grid(document.grid@), p)
                &&& forall|p: IndexPos|
                    crate::table::pmap_contains(f.node_attributes.deep_view(), p)
                        ==> #[trigger] crate::table::pmap_index(f.node_attributes.deep_view(), p)
                        == cell_attrs(
                        document.definitions.deep_view(),
                        cells_of_grid(document.grid@),
                        p,
                    )
            },
    {
        let ghost dv = document.definitions.deep_view();
        let ghost cv = cells_of_grid(document.grid@);
        let cells = grid_cells(&document.grid);
        let index = crate::grid::build_grid_index(&document.grid);
        proof {
            assert(crate::table::pmap_nodup(cv)) by {
                assert(forall|i: int, j: int|
                    0 <= i < j < cv.len() ==> crate::grid::row_major_lt(
                        (#[trigger] cv[i]).0,
                        (#[trigger] cv[j]).0,
                    ));
            }
            assert forall|p: IndexPos|
                #[trigger] index.spec_occupied(p) <==> crate::table::pmap_contains(cv, p) by {
                if crate::table::pmap_contains(cv, p) {
                    let t = choose|t: int| 0 <= t < cv.len() && cv[t].0 == p;
                    assert(document.grid.spec_cell(p.x as int, p.y as int) == Some(cv[t].1));
                }
                if index.spec_occupied(p) {
                    assert(document.grid.spec_cell(p.x as int, p.y as int) matches Some(_));
                    let t = choose|t: int|
                        0 <= t < cv.len() && (#[trigger] cv[t]).0.x == p.x as int && cv[t].0.y
                            == p.y as int;
                    assert(cv[t].0 == p);
                }
            }
            assert forall|p: IndexPos|
                index.spec_occupied(p) implies #[trigger] index.spec_id_at(p)
                == crate::table::pmap_index(cv, p).id by {
                let t = choose|t: int| 0 <= t < cv.len() && cv[t].0 == p;
                crate::table::lemma_pmap_index_at(cv, t);
                assert(document.grid.spec_cell(p.x as int, p.y as int) == Some(cv[t].1));
            }
        }
        let definitions = match ensure_definitions_are_unique(document.definitions) {
            Ok(d) => d,
            Err(e) => {
                return Err(LogicError::DuplicateDefinitions(e));
            },
        };
        let (def_attrs_m, def_conn_desc) = match get_attributes_from_definitions(definitions) {
            Ok(x) => x,
            Err(e) => {
                return Err(LogicError::DuplicateNodeAttributesInDefinitions(e));
            },
        };
        let def_conns_m = match parse_connection_desc_map(def_conn_desc) {
            Ok(x) => x,
            Err(e) => {
                return Err(LogicError::DuplicateConnectionAttributesInDefinitions(e));
            },
        };
        proof {
            lemma_def_attr_entries(dv);
            lemma_def_connect_entries(dv);
            lemma_conn_ok_entries(def_connect_entries(dv));
        }
        let def_attrs = resolve_id_map_attrs(&index, def_attrs_m);
        let def_conns = resolve_id_map_connections(&index, def_conns_m);
        let (grid_attrs, grid_conn_desc) = match get_attributes_from_grid(&cells) {
            Ok(x) => x,
            Err(e) => {
                return Err(LogicError::DuplicateNodeAttributesInGrid(e));
            },
        };
        let grid_conns = match parse_connection_desc_map_pos(grid_conn_desc) {
            Ok(x) => x,
            Err(e) => {
                return Err(LogicError::DuplicateConnectionAttributesInGrid(e));
            },
        };
        proof {
            lemma_grid_attr_entries(cv);
            lemma_grid_connect_entries(cv);
            lemma_conn_ok_entries_p(grid_connect_entries(cv));
            lemma_grid_err_empty(cv);
        }
        let node_attributes = merge_node_attribute_maps(def_attrs, grid_attrs);
        let connections_map = merge_connection_maps(def_conns, grid_conns);
        let labels = match try_into_label_map(&cells) {
            Ok(l) => l,
            Err(e) => {
                return Err(LogicError::DuplicateLabels(e));
            },
        };
        let ghost mv = connections_map.deep_view();
        let ghost lv = labels.deep_view();
        proof {
            // The merged connection map holds exactly the cells that define
            // connections, with the merged lists the model describes.
            assert forall|p: IndexPos|
                crate::table::pmap_contains(mv, p) <==> (crate::table::pmap_contains(cv, p)
                    && (#[trigger] cell_conns(dv, cv, p)) is Some) by {
                if crate::table::pmap_contains(mv, p) {
                    if crate::table::pmap_contains(
                        conn_ok_entries_p(grid_connect_entries(cv)),
                        p,
                    ) {
                        assert(crate::table::pmap_contains(cv, p));
                    } else {
                        assert(index.spec_occupied(p));
                    }
                }
                if crate::table::pmap_contains(cv, p) && cell_conns(dv, cv, p) is Some {
                    if crate::table::pmap_contains(grid_connect_entries(cv), p) {
                        assert(crate::table::pmap_contains(
                            conn_ok_entries_p(grid_connect_entries(cv)),
                            p,
                        ));
                    } else {
                        assert(index.spec_occupied(p));
                        assert(crate::table::nmap_contains(
                            def_connect_entries(dv),
                            crate::table::pmap_index(cv, p).id,
                        ));
                        assert(crate::table::nmap_contains(
                            conn_ok_entries(def_connect_entries(dv)),
                            index.spec_id_at(p),
                        ));
                    }
                }
            }
            assert forall|p: IndexPos|
                crate::table::pmap_contains(mv, p) implies #[trigger] crate::table::pmap_index(
                mv,
                p,
            ) == cell_conns(dv, cv, p)->Some_0 by {
                if crate::table::pmap_contains(
                    conn_ok_entries_p(grid_connect_entries(cv)),
                    p,
                ) {
                    assert(crate::table::pmap_contains(grid_connect_entries(cv), p));
                } else {
                    assert(!crate::table::pmap_contains(grid_connect_entries(cv), p));
                    assert(index.spec_occupied(p));
                    assert(crate::table::pmap_index(mv, p) == crate::table::nmap_index(
                        conn_ok_entries(def_connect_entries(dv)),
                        index.spec_id_at(p),
                    ));
                }
            }
            // A destination resolves through the index and label table
            // exactly when the document-level model says it does.
            assert forall|p: IndexPos, to: DestinationV|
                crate::table::pmap_contains(mv, p) implies ((#[trigger] index.spec_normalize(
                p,
                to,
                lv,
            )) is Err <==> !dest_resolves(cv, p, to)) by {
                match to {
                    DestinationV::Itself => {},
                    DestinationV::Relative(dir) => {
                        index.lemma_walk_some_iff(p, dir);
                        if exists|q: IndexPos|
                            crate::grid::on_ray(p, dir, q) && index.spec_occupied(q) {
                            let q = choose|q: IndexPos|
                                crate::grid::on_ray(p, dir, q) && index.spec_occupied(q);
                            assert(crate::grid::on_ray(p, dir, q)
                                && crate::table::pmap_contains(cv, q));
                        }
                        if exists|q: IndexPos|
                            crate::grid::on_ray(p, dir, q) && crate::table::pmap_contains(
                                cv,
                                q,
                            ) {
                            let q = choose|q: IndexPos|
                                crate::grid::on_ray(p, dir, q) && crate::table::pmap_contains(
                                    cv,
                                    q,
                                );
                            assert(crate::grid::on_ray(p, dir, q) && index.spec_occupied(q));
                        }
                    },
                    DestinationV::Label(l) => {},
                }
            }
            // Requirements of the resolver: every origin lies in bounds.
            assert forall|t: int|
                0 <= t < mv.len() implies (#[trigger] mv[t]).0.spec_in_bounds(index.size) by {
                assert(crate::table::pmap_contains(mv, mv[t].0));
                index.lemma_occupied_in_bounds(mv[t].0);
            }
        }
        let connections = match resolve_connections_map(&index, &labels, connections_map) {
            Ok(c) => c,
            Err(e) => {
                proof {
                    lemma_res_err_exists(index, lv, mv);
                    let (t, j): (int, int) = choose|t: int, j: int|
                        0 <= t < mv.len() && 0 <= j < mv[t].1.len() && index.spec_normalize(
                            mv[t].0,
                            (#[trigger] mv[t].1[j]).to,
                            lv,
                        ) is Err;
                    let p = mv[t].0;
                    assert(crate::table::pmap_contains(mv, p));
                    crate::table::lemma_pmap_index_at(mv, t);
                    assert(cell_conns(dv, cv, p)->Some_0 == mv[t].1);
                    assert(!dest_resolves(cv, p, mv[t].1[j].to));
                    assert(cell_has_dest_err(dv, cv, p));
                    assert(dest_errs(dv, cv));
                    assert forall|t2: int|
                        0 <= t2 < e.deep_view().len() implies crate::table::pmap_contains(
                        cv,
                        (#[trigger] e.deep_view()[t2]).0,
                    ) by {
                        lemma_res_err_keys(index, lv, mv, t2);
                        let tm = choose|tm: int|
                            0 <= tm < mv.len() && (#[trigger] mv[tm]).0 == e.deep_view()[t2].0
                                && e.deep_view()[t2].1 == entry_err_list(
                                index,
                                lv,
                                mv[tm].0,
                                mv[tm].1,
                            );
                        assert(crate::table::pmap_contains(mv, mv[tm].0));
                    }
                }
                return Err(LogicError::InvalidDestination(e));
            },
        };
        proof {
            // No destination fails: transfer the resolver's success to the
            // document-level model.
            lemma_res_err_exists(index, lv, mv);
            if dest_errs(dv, cv) {
                let p = choose|p: IndexPos|
                    crate::table::pmap_contains(cv, p) && #[trigger] cell_has_dest_err(
                        dv,
                        cv,
                        p,
                    );
                assert(crate::table::pmap_contains(mv, p));
                let t = choose|t: int| 0 <= t < mv.len() && mv[t].0 == p;
                crate::table::lemma_pmap_index_at(mv, t);
                let ucs = cell_conns(dv, cv, p)->Some_0;
                let j = choose|j: int|
                    0 <= j < ucs.len() && !dest_resolves(cv, p, (#[trigger] ucs[j]).to);
                assert(mv[t].1 == ucs);
                assert(index.spec_normalize(mv[t].0, mv[t].1[j].to, lv) is Err);
                assert(false);
            }
            // The merged attribute table covers every occupied cell with the
            // field-level merge the model describes.
            let na = node_attributes.deep_view();
            assert forall|p: IndexPos|
                crate::table::pmap_contains(na, p) <==> crate::table::pmap_contains(
                    cv,
                    p,
                ) by {
                if crate::table::pmap_contains(cv, p) {
                    assert(crate::table::pmap_contains(grid_attr_entries(cv), p));
                }
                if crate::table::pmap_contains(na, p) {
                    if crate::table::pmap_contains(grid_attr_entries(cv), p) {
                        assert(crate::table::pmap_contains(cv, p));
                    } else {
                        assert(index.spec_occupied(p));
                    }
                }
            }
            assert forall|p: IndexPos|
                crate::table::pmap_contains(na, p) implies #[trigger] crate::table::pmap_index(
                na,
                p,
            ) == cell_attrs(dv, cv, p) by {
                assert(crate::table::pmap_contains(cv, p));
                assert(crate::table::pmap_contains(grid_attr_entries(cv), p));
                assert(index.spec_occupied(p));
                assert(index.spec_id_at(p) == crate::table::pmap_index(cv, p).id);
            }
            // Endpoint bounds for every resolved connection.
            assert forall|l: Seq<char>|
                crate::table::nmap_contains(lv, l) implies (
            #[trigger] crate::table::nmap_index(lv, l)).spec_in_bounds(index.size) by {
                assert(crate::table::pmap_contains(cv, crate::table::nmap_index(lv, l)));
                index.lemma_occupied_in_bounds(crate::table::nmap_index(lv, l));
            }
            assert forall|i: int|
                0 <= i < connections@.len() implies (#[trigger] connections@[i]).from.0
                .spec_in_bounds(index.size) && connections@[i].to.0.spec_in_bounds(
                index.size,
            ) by {
                assert(connections.deep_view()[i] == connections@[i].deep_view());
                lemma_conns_flat_bounds(index, lv, mv, i);
            }
        }
        Ok(Flou { grid: index, connections, node_attributes })
    }
}

} // verus!

verus! {

/// Either kind of pipeline failure: the text did not parse, or the parsed
/// document failed validation.
#[derive(Debug, PartialEq, Eq)]
pub enum FlouError {
    Parse(crate::parse::ParseError),
    Logic(LogicError),
}

} // verus!

verus! {

/// The kinds of an attribute list, in order.
pub open spec fn attr_kinds(s: Seq<NodeAttributeV>) -> Seq<AttrKind> {
    s.map_values(|a: NodeAttributeV| a.kind())
}

/// A kind's count is its multiplicity among the list's kinds.
pub proof fn lemma_node_kind_count_multiset(s: Seq<NodeAttributeV>, k: AttrKind)
    ensures
        node_kind_count(s, k) == attr_kinds(s).to_multiset().count(k),
    decreases s.len(),
{
    broadcast use vstd::seq_lib::group_seq_lib_default, vstd::multiset::group_multiset_axioms;

    if s.len() == 0 {
        assert(attr_kinds(s) =~= Seq::<AttrKind>::empty());
        attr_kinds(s).to_multiset_ensures();
        assert(attr_kinds(s).to_multiset().len() == 0);
        assert(attr_kinds(s).to_multiset().count(k) == 0);
    } else {
        lemma_node_kind_count_multiset(s.drop_last(), k);
        let rest = attr_kinds(s.drop_last());
        assert(attr_kinds(s) =~= rest.push(s.last().kind()));
        rest.to_multiset_ensures();
        assert(rest.push(s.last().kind()).to_multiset() =~= rest.to_multiset().insert(
            s.last().kind(),
        ));
    }
}

/// Duplicate detection is a cardinality check per kind, so the reported
/// set of duplicated kinds does not depend on the order the attributes
/// were declared in: two lists with the same kinds (as a multiset) blame
/// exactly the same kinds.
pub proof fn lemma_dup_kinds_order_independent(
    s1: Seq<NodeAttributeV>,
    s2: Seq<NodeAttributeV>,
    k: AttrKind,
)
    requires
        attr_kinds(s1).to_multiset() == attr_kinds(s2).to_multiset(),
    ensures
        (node_kind_count(s1, k) >= 2) <==> (node_kind_count(s2, k) >= 2),
        node_has_dup(s1) <==> node_has_dup(s2),
{
    assert forall|kk: AttrKind|
        node_kind_count(s1, kk) == node_kind_count(s2, kk) by {
        lemma_node_kind_count_multiset(s1, kk);
        lemma_node_kind_count_multiset(s2, kk);
    }
    if node_has_dup(s1) {
        let kk = choose|kk: AttrKind| node_kind_count(s1, kk) >= 2;
        assert(node_kind_count(s2, kk) >= 2);
    }
    if node_has_dup(s2) {
        let kk = choose|kk: AttrKind| node_kind_count(s2, kk) >= 2;
        assert(node_kind_count(s1, kk) >= 2);
    }
}

} // verus!
