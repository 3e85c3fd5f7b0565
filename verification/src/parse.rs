//! A recursive-descent parser for the diagram language: a `grid` block of
//! rows of node slots, and an optional `define` block of named attribute
//! bundles.  Parsing works over character indices into the input; every
//! parser returns the next index together with the parsed value, or `None`
//! where its production does not match.

use vstd::prelude::*;
use vstd::string::StrSliceExecFns;

use crate::ast::{
    ArrowheadType, ConnectionAttribute, ConnectionDescriptor, Destination, Direction, Document,
    Grid, Identifier, Node, NodeAttribute, NodeShape,
};

verus! {

/// Why a document failed to parse: the character index the parser stopped at.
#[derive(Debug, PartialEq, Eq)]
pub struct ParseError {
    pub at: usize,
}

/// Whether a character may start an identifier.
pub open spec fn spec_ident_start(c: char) -> bool {
    c == '_' || ('a' <= c <= 'z') || ('A' <= c <= 'Z')
}

/// Whether a character may continue an identifier.
pub open spec fn spec_ident_char(c: char) -> bool {
    spec_ident_start(c) || ('0' <= c <= '9')
}

fn is_ident_start(c: char) -> (r: bool)
    ensures
        r == spec_ident_start(c),
{
    c == '_' || (c >= 'a' && c <= 'z') || (c >= 'A' && c <= 'Z')
}

fn is_ident_char(c: char) -> (r: bool)
    ensures
        r == spec_ident_char(c),
{
    is_ident_start(c) || (c >= '0' && c <= '9')
}

/// Parses an identifier: a word-start character followed by word characters,
/// as long as possible.
pub fn parse_identifier(s: &str, i: usize) -> (r: Option<(usize, Identifier)>)
    requires
        i <= s@.len(),
    ensures
        r is Some <==> (i < s@.len() && spec_ident_start(s@[i as int])),
        r matches Some((j, id)) ==> {
            &&& i < j <= s@.len()
            &&& id@ == s@.subrange(i as int, j as int)
            &&& forall|k: int| i <= k < j ==> spec_ident_char(#[trigger] s@[k])
            &&& (j == s@.len() || !spec_ident_char(s@[j as int]))
        },
{
    let n = s.unicode_len();
    if i >= n {
        return None;
    }
    if !is_ident_start(s.get_char(i)) {
        return None;
    }
    let mut j: usize = i + 1;
    while j < n && is_ident_char(s.get_char(j))
        invariant
            i < j <= n,
            n == s@.len(),
            i < s@.len(),
            forall|k: int| i <= k < j ==> spec_ident_char(#[trigger] s@[k]),
            spec_ident_start(s@[i as int]),
        decreases n - j,
    {
        j += 1;
    }
    let word = s.substring_char(i, j);
    Some((j, Identifier(word.to_owned())))
}

/// Whether the input carries the given token at the given index.
pub open spec fn spec_tag(sv: Seq<char>, i: int, t: Seq<char>) -> bool {
    i + t.len() <= sv.len() && sv.subrange(i, i + t.len()) == t
}

/// Matches a fixed token at the given index.
pub fn tag(s: &str, i: usize, t: &str) -> (r: Option<usize>)
    requires
        i <= s@.len(),
    ensures
        r is Some <==> spec_tag(s@, i as int, t@),
        r matches Some(j) ==> j == i + t@.len() && j <= s@.len(),
{
    let tn = t.unicode_len();
    let n = s.unicode_len();
    if tn > n - i {
        proof {
            if spec_tag(s@, i as int, t@) {
                assert(false);
            }
        }
        return None;
    }
    let mut k: usize = 0;
    while k < tn
        invariant
            0 <= k <= tn,
            tn == t@.len(),
            n == s@.len(),
            i + tn <= n,
            forall|m: int| 0 <= m < k ==> s@[i + m] == t@[m],
        decreases tn - k,
    {
        if s.get_char(i + k) != t.get_char(k) {
            proof {
                if spec_tag(s@, i as int, t@) {
                    assert(s@.subrange(i as int, i + t@.len())[k as int] == t@[k as int]);
                }
            }
            return None;
        }
        k += 1;
    }
    proof {
        assert(s@.subrange(i as int, i + t@.len()) =~= t@);
    }
    Some(i + tn)
}

/// Parses a direction letter: `n`, `s`, `w` or `e`.
pub fn parse_direction(s: &str, i: usize) -> (r: Option<(usize, Direction)>)
    requires
        i <= s@.len(),
    ensures
        r is Some <==> (i < s@.len() && (s@[i as int] == 'n' || s@[i as int] == 's' || s@[
            i as int
        ] == 'w' || s@[i as int] == 'e')),
        r matches Some((j, d)) ==> j == i + 1 && d == (if s@[i as int] == 'n' {
            Direction::North
        } else if s@[i as int] == 's' {
            Direction::South
        } else if s@[i as int] == 'w' {
            Direction::West
        } else {
            Direction::East
        }),
{
    let n = s.unicode_len();
    if i >= n {
        return None;
    }
    let c = s.get_char(i);
    if c == 'n' {
        Some((i + 1, Direction::North))
    } else if c == 's' {
        Some((i + 1, Direction::South))
    } else if c == 'w' {
        Some((i + 1, Direction::West))
    } else if c == 'e' {
        Some((i + 1, Direction::East))
    } else {
        None
    }
}

/// The token of each node shape.
pub open spec fn spec_shape_token(sh: NodeShape) -> Seq<char> {
    match sh {
        NodeShape::Rectangle => "rect"@,
        NodeShape::Square => "square"@,
        NodeShape::Ellipse => "ellipse"@,
        NodeShape::Circle => "circle"@,
        NodeShape::Diamond => "diamond"@,
        NodeShape::AngledSquare => "angled_square"@,
    }
}

/// Parses a node shape name; the alternatives are tried in a fixed order.
pub fn parse_node_shape(s: &str, i: usize) -> (r: Option<(usize, NodeShape)>)
    requires
        i <= s@.len(),
    ensures
        r matches Some((j, sh)) ==> spec_tag(s@, i as int, spec_shape_token(sh)) && j == i
            + spec_shape_token(sh).len(),
        r is None ==> !spec_tag(s@, i as int, "rect"@) && !spec_tag(s@, i as int, "square"@)
            && !spec_tag(s@, i as int, "ellipse"@) && !spec_tag(s@, i as int, "circle"@)
            && !spec_tag(s@, i as int, "diamond"@) && !spec_tag(s@, i as int, "angled_square"@),
{
    if let Some(j) = tag(s, i, "rect") {
        return Some((j, NodeShape::Rectangle));
    }
    if let Some(j) = tag(s, i, "square") {
        return Some((j, NodeShape::Square));
    }
    if let Some(j) = tag(s, i, "ellipse") {
        return Some((j, NodeShape::Ellipse));
    }
    if let Some(j) = tag(s, i, "circle") {
        return Some((j, NodeShape::Circle));
    }
    if let Some(j) = tag(s, i, "diamond") {
        return Some((j, NodeShape::Diamond));
    }
    if let Some(j) = tag(s, i, "angled_square") {
        return Some((j, NodeShape::AngledSquare));
    }
    None
}

/// Parses a raw destination: `@` alone is the node itself, `@` plus a
/// direction walks the grid, `#` plus an identifier names a label.
pub fn parse_destination(s: &str, i: usize) -> (r: Option<(usize, Destination)>)
    requires
        i <= s@.len(),
    ensures
        r matches Some((j, _)) ==> i < j <= s@.len(),
        r is Some <==> (i < s@.len() && (s@[i as int] == '@' || (s@[i as int] == '#' && i + 1
            < s@.len() && spec_ident_start(s@[i + 1])))),
        r matches Some((j, d)) ==> (s@[i as int] == '@' ==> (match d {
            Destination::Itself => j == i + 1 && (j == s@.len() || !(s@[j as int] == 'n' || s@[
                j as int
            ] == 's' || s@[j as int] == 'w' || s@[j as int] == 'e')),
            Destination::Relative(_) => j == i + 2,
            Destination::Label(_) => false,
        })) && (s@[i as int] == '#' ==> d is Label),
{
    let n = s.unicode_len();
    if i >= n {
        return None;
    }
    let c = s.get_char(i);
    if c == '@' {
        match parse_direction(s, i + 1) {
            Some((j, dir)) => Some((j, Destination::Relative(dir))),
            None => Some((i + 1, Destination::Itself)),
        }
    } else if c == '#' {
        match parse_identifier(s, i + 1) {
            Some((j, id)) => Some((j, Destination::Label(id))),
            None => None,
        }
    } else {
        None
    }
}

/// What a quoted string body decodes to from an index: the index just past
/// the closing quote and the decoded characters, or nothing when the body
/// is unterminated or holds an invalid escape.
pub open spec fn scan_quoted(sv: Seq<char>, i: int) -> Option<(int, Seq<char>)>
    decreases sv.len() - i,
{
    if i < 0 || i >= sv.len() {
        None
    } else if sv[i] == '"' {
        Some((i + 1, Seq::empty()))
    } else if sv[i] == '\\' {
        if i + 1 < sv.len() && (sv[i + 1] == '\\' || sv[i + 1] == '"' || sv[i + 1] == 'n') {
            let decoded = if sv[i + 1] == 'n' {
                '\n'
            } else {
                sv[i + 1]
            };
            match scan_quoted(sv, i + 2) {
                Some((j, rest)) => Some((j, seq![decoded] + rest)),
                None => None,
            }
        } else {
            None
        }
    } else {
        match scan_quoted(sv, i + 1) {
            Some((j, rest)) => Some((j, seq![sv[i]] + rest)),
            None => None,
        }
    }
}

/// Parses a quoted string: `"` up to the matching `"`, decoding the escapes
/// `\\`, `\"` and `\n`.
pub fn parse_quoted_string(s: &str, i: usize) -> (r: Option<(usize, String)>)
    requires
        i <= s@.len(),
    ensures
        r is Some <==> (i < s@.len() && s@[i as int] == '"' && scan_quoted(s@, i + 1) is Some),
        r matches Some((j, out)) ==> scan_quoted(s@, i + 1) == Some((j as int, out@)) && i < j
            <= s@.len(),
{
    let n = s.unicode_len();
    if i >= n {
        return None;
    }
    if s.get_char(i) != '"' {
        return None;
    }
    let mut cur: usize = i + 1;
    let mut acc = String::new();
    loop
        invariant
            i + 1 <= cur <= n,
            n == s@.len(),
            i < s@.len(),
            s@[i as int] == '"',
            (match scan_quoted(s@, cur as int) {
                Some((j, rest)) => scan_quoted(s@, i + 1) == Some((j, acc@ + rest)),
                None => scan_quoted(s@, i + 1) is None,
            }),
        decreases n - cur,
    {
        if cur >= n {
            return None;
        }
        let c = s.get_char(cur);
        if c == '"' {
            proof {
                assert(acc@ + Seq::<char>::empty() =~= acc@);
            }
            return Some((cur + 1, acc));
        }
        let ghost pre = acc@;
        if c == '\\' {
            if cur + 1 >= n {
                return None;
            }
            let e = s.get_char(cur + 1);
            if e == '\\' {
                acc.append("\\");
            } else if e == '"' {
                acc.append("\"");
            } else if e == 'n' {
                acc.append("\n");
            } else {
                return None;
            }
            proof {
                reveal_strlit("\\");
                reveal_strlit("\"");
                reveal_strlit("\n");
                let decoded: char = if s@[cur + 1] == 'n' {
                    '\n'
                } else {
                    s@[cur + 1]
                };
                assert(acc@ =~= pre + seq![decoded]);
                match scan_quoted(s@, cur as int + 2) {
                    Some((j, rest)) => {
                        assert(pre + (seq![decoded] + rest) =~= acc@ + rest);
                    },
                    None => {},
                }
            }
            cur = cur + 2;
        } else {
            let piece = s.substring_char(cur, cur + 1);
            acc.append(piece);
            proof {
                assert(piece@ =~= seq![s@[cur as int]]);
                assert(acc@ =~= pre + seq![s@[cur as int]]);
                match scan_quoted(s@, cur as int + 1) {
                    Some((j, rest)) => {
                        assert(pre + (seq![s@[cur as int]] + rest) =~= acc@ + rest);
                    },
                    None => {},
                }
            }
            cur = cur + 1;
        }
    }
}

} // verus!

verus! {

/// Whether a character is layout whitespace.
pub open spec fn spec_space(c: char) -> bool {
    c == ' ' || c == '\t' || c == '\r' || c == '\n'
}

fn is_space(c: char) -> (r: bool)
    ensures
        r == spec_space(c),
{
    c == ' ' || c == '\t' || c == '\r' || c == '\n'
}

/// Skips a run of whitespace characters.
fn skip_ws(s: &str, i: usize) -> (j: usize)
    requires
        i <= s@.len(),
    ensures
        i <= j <= s@.len(),
{
    let n = s.unicode_len();
    let mut j: usize = i;
    while j < n && is_space(s.get_char(j))
        invariant
            i <= j <= n,
            n == s@.len(),
        decreases n - j,
    {
        j += 1;
    }
    j
}

/// Skips whitespace, at most one `//` comment ended by a line break, and
/// more whitespace.
pub fn skip_space(s: &str, i: usize) -> (j: usize)
    requires
        i <= s@.len(),
    ensures
        i <= j <= s@.len(),
{
    let n = s.unicode_len();
    let after_ws = skip_ws(s, i);
    let mut j = after_ws;
    match tag(s, j, "//") {
        Some(mut k) => {
            while k < n && s.get_char(k) != '\n' && s.get_char(k) != '\r'
                invariant
                    j <= k <= n,
                    n == s@.len(),
                decreases n - k,
            {
                k += 1;
            }
            if k < n && s.get_char(k) == '\n' {
                j = k + 1;
            } else if k < n && s.get_char(k) == '\r' && k + 1 < n && s.get_char(k + 1) == '\n' {
                j = k + 2;
            } else {
                // No line break ends the comment: it is not a comment here.
                return after_ws;
            }
            skip_ws(s, j)
        },
        None => after_ws,
    }
}

/// Expects one fixed character.
fn expect_char(s: &str, i: usize, c: char) -> (r: Option<usize>)
    requires
        i <= s@.len(),
    ensures
        r matches Some(j) ==> j == i + 1 && j <= s@.len(),
        r is Some <==> (i < s@.len() && s@[i as int] == c),
{
    let n = s.unicode_len();
    if i < n && s.get_char(i) == c {
        Some(i + 1)
    } else {
        None
    }
}

/// Parses `key`, optional space, `:`, optional space: the prefix of every
/// keyed attribute.
fn parse_attr_key(s: &str, i: usize, key: &str) -> (r: Option<usize>)
    requires
        i <= s@.len(),
    ensures
        r matches Some(j) ==> i < j <= s@.len(),
{
    let j = match tag(s, i, key) {
        Some(j) => j,
        None => {
            return None;
        },
    };
    let j = skip_space(s, j);
    let j = match expect_char(s, j, ':') {
        Some(j) => j,
        None => {
            return None;
        },
    };
    Some(skip_space(s, j))
}

/// Parses one connection attribute: `text`, `class` or `arrowheads`.
pub fn parse_connection_attribute(s: &str, i: usize) -> (r: Option<(usize, ConnectionAttribute)>)
    requires
        i <= s@.len(),
    ensures
        r matches Some((j, _)) ==> i < j <= s@.len(),
{
    if let Some(j) = parse_attr_key(s, i, "text") {
        if let Some((j2, text)) = parse_quoted_string(s, j) {
            return Some((j2, ConnectionAttribute::Text(text)));
        }
        return None;
    }
    if let Some(j) = parse_attr_key(s, i, "class") {
        if let Some((j2, class)) = parse_quoted_string(s, j) {
            return Some((j2, ConnectionAttribute::Class(class)));
        }
        return None;
    }
    if let Some(j) = parse_attr_key(s, i, "arrowheads") {
        if let Some(j2) = tag(s, j, "none") {
            return Some((j2, ConnectionAttribute::Arrowheads(ArrowheadType::Neither)));
        }
        if let Some(j2) = tag(s, j, "start") {
            return Some((j2, ConnectionAttribute::Arrowheads(ArrowheadType::Start)));
        }
        if let Some(j2) = tag(s, j, "end") {
            return Some((j2, ConnectionAttribute::Arrowheads(ArrowheadType::End)));
        }
        if let Some(j2) = tag(s, j, "both") {
            return Some((j2, ConnectionAttribute::Arrowheads(ArrowheadType::Both)));
        }
        return None;
    }
    None
}

/// Parses the parenthesised attribute list of a connection descriptor,
/// where a leading quoted string abbreviates `text:`.
pub fn parse_connection_attribute_list(s: &str, i: usize) -> (r: Option<
    (usize, Vec<ConnectionAttribute>),
>)
    requires
        i <= s@.len(),
    ensures
        r matches Some((j, _)) ==> i < j <= s@.len(),
{
    let n = s.unicode_len();
    let start = match expect_char(s, i, '(') {
        Some(j) => j,
        None => {
            return None;
        },
    };
    // A lone quoted string closed at once.
    if let Some((j, text)) = parse_quoted_string(s, start) {
        if let Some(j2) = expect_char(s, j, ')') {
            let mut attrs: Vec<ConnectionAttribute> = Vec::new();
            attrs.push(ConnectionAttribute::Text(text));
            return Some((j2, attrs));
        }
    }
    // A quoted string, a comma, then the ordinary list.
    let (mut j, mut attrs): (usize, Vec<ConnectionAttribute>) = match parse_quoted_string(
        s,
        start,
    ) {
        Some((j1, text)) => {
            let j2 = skip_space(s, j1);
            match expect_char(s, j2, ',') {
                Some(j3) => {
                    let j4 = skip_space(s, j3);
                    let mut acc: Vec<ConnectionAttribute> = Vec::new();
                    acc.push(ConnectionAttribute::Text(text));
                    (j4, acc)
                },
                None => (start, Vec::new()),
            }
        },
        None => (start, Vec::new()),
    };
    // The ordinary comma-separated list, closed by `)`.
    match parse_connection_attribute(s, j) {
        Some((j2, attr)) => {
            attrs.push(attr);
            j = j2;
        },
        None => {
            return None;
        },
    }
    loop
        invariant
            i < j <= n,
            n == s@.len(),
        decreases n - j,
    {
        let k = skip_space(s, j);
        if let Some(k2) = expect_char(s, k, ')') {
            return Some((k2, attrs));
        }
        let k = match expect_char(s, k, ',') {
            Some(k2) => k2,
            None => {
                return None;
            },
        };
        let k = skip_space(s, k);
        if let Some(k2) = expect_char(s, k, ')') {
            return Some((k2, attrs));
        }
        match parse_connection_attribute(s, k) {
            Some((k2, attr)) => {
                attrs.push(attr);
                if k2 <= j {
                    return None;
                }
                j = k2;
            },
            None => {
                return None;
            },
        }
    }
}

/// Parses one connection descriptor: exit side, `:`, entry side,
/// destination, and an optional attribute list.
pub fn parse_connection_descriptor(s: &str, i: usize) -> (r: Option<(usize, ConnectionDescriptor)>)
    requires
        i <= s@.len(),
    ensures
        r matches Some((j, _)) ==> i < j <= s@.len(),
{
    let (j, exit) = match parse_direction(s, i) {
        Some(x) => x,
        None => {
            return None;
        },
    };
    let j = match expect_char(s, j, ':') {
        Some(j) => j,
        None => {
            return None;
        },
    };
    let (j, entry) = match parse_direction(s, j) {
        Some(x) => x,
        None => {
            return None;
        },
    };
    let (j, to) = match parse_destination(s, j) {
        Some(x) => x,
        None => {
            return None;
        },
    };
    match parse_connection_attribute_list(s, j) {
        Some((j2, attrs)) => Some((j2, ConnectionDescriptor { to, sides: (exit, entry), attrs })),
        None => Some((j, ConnectionDescriptor { to, sides: (exit, entry), attrs: Vec::new() })),
    }
}

/// Parses the value of a `connect` attribute: one descriptor, or a
/// `;`-separated block of descriptors in braces.
pub fn parse_connect_value(s: &str, i: usize) -> (r: Option<(usize, Vec<ConnectionDescriptor>)>)
    requires
        i <= s@.len(),
    ensures
        r matches Some((j, _)) ==> i < j <= s@.len(),
{
    let n = s.unicode_len();
    if let Some((j, d)) = parse_connection_descriptor(s, i) {
        let mut ds: Vec<ConnectionDescriptor> = Vec::new();
        ds.push(d);
        return Some((j, ds));
    }
    let mut j = match expect_char(s, i, '{') {
        Some(j) => j,
        None => {
            return None;
        },
    };
    j = skip_space(s, j);
    if let Some(j2) = expect_char(s, j, '}') {
        return Some((j2, Vec::new()));
    }
    let mut ds: Vec<ConnectionDescriptor> = Vec::new();
    match parse_connection_descriptor(s, j) {
        Some((j2, d)) => {
            ds.push(d);
            j = j2;
        },
        None => {
            return None;
        },
    }
    loop
        invariant
            i < j <= n,
            n == s@.len(),
        decreases n - j,
    {
        let k = skip_space(s, j);
        if let Some(k2) = expect_char(s, k, '}') {
            return Some((k2, ds));
        }
        let k = match expect_char(s, k, ';') {
            Some(k2) => k2,
            None => {
                return None;
            },
        };
        let k = skip_space(s, k);
        if let Some(k2) = expect_char(s, k, '}') {
            return Some((k2, ds));
        }
        match parse_connection_descriptor(s, k) {
            Some((k2, d)) => {
                ds.push(d);
                if k2 <= j {
                    return None;
                }
                j = k2;
            },
            None => {
                return None;
            },
        }
    }
}

/// Parses one node attribute: `text`, `class`, `shape` or `connect`.
pub fn parse_node_attribute(s: &str, i: usize) -> (r: Option<(usize, NodeAttribute)>)
    requires
        i <= s@.len(),
    ensures
        r matches Some((j, _)) ==> i < j <= s@.len(),
{
    if let Some(j) = parse_attr_key(s, i, "text") {
        if let Some((j2, text)) = parse_quoted_string(s, j) {
            return Some((j2, NodeAttribute::Text(text)));
        }
        return None;
    }
    if let Some(j) = parse_attr_key(s, i, "class") {
        if let Some((j2, class)) = parse_quoted_string(s, j) {
            return Some((j2, NodeAttribute::Class(class)));
        }
        return None;
    }
    if let Some(j) = parse_attr_key(s, i, "shape") {
        if let Some((j2, shape)) = parse_node_shape(s, j) {
            return Some((j2, NodeAttribute::Shape(shape)));
        }
        return None;
    }
    if let Some(j) = parse_attr_key(s, i, "connect") {
        if let Some((j2, ds)) = parse_connect_value(s, j) {
            return Some((j2, NodeAttribute::Connect(ds)));
        }
        return None;
    }
    None
}

/// Parses the parenthesised attribute list of a node or definition, where a
/// leading quoted string abbreviates `text:`.
pub fn parse_node_attribute_list(s: &str, i: usize) -> (r: Option<(usize, Vec<NodeAttribute>)>)
    requires
        i <= s@.len(),
    ensures
        r matches Some((j, _)) ==> i < j <= s@.len(),
{
    let n = s.unicode_len();
    let start = match expect_char(s, i, '(') {
        Some(j) => j,
        None => {
            return None;
        },
    };
    // A lone quoted string, an optional trailing comma, closed at once.
    if let Some((j, text)) = parse_quoted_string(s, start) {
        let j2 = match expect_char(s, j, ',') {
            Some(j2) => j2,
            None => j,
        };
        if let Some(j3) = expect_char(s, j2, ')') {
            let mut attrs: Vec<NodeAttribute> = Vec::new();
            attrs.push(NodeAttribute::Text(text));
            return Some((j3, attrs));
        }
    }
    // A quoted string, a comma, then the ordinary list.
    let (mut j, mut attrs): (usize, Vec<NodeAttribute>) = match parse_quoted_string(s, start) {
        Some((j1, text)) => {
            let j2 = skip_space(s, j1);
            match expect_char(s, j2, ',') {
                Some(j3) => {
                    let j4 = skip_space(s, j3);
                    let mut acc: Vec<NodeAttribute> = Vec::new();
                    acc.push(NodeAttribute::Text(text));
                    (j4, acc)
                },
                None => (start, Vec::new()),
            }
        },
        None => (start, Vec::new()),
    };
    match parse_node_attribute(s, j) {
        Some((j2, attr)) => {
            attrs.push(attr);
            j = j2;
        },
        None => {
            return None;
        },
    }
    loop
        invariant
            i < j <= n,
            n == s@.len(),
        decreases n - j,
    {
        let k = skip_space(s, j);
        if let Some(k2) = expect_char(s, k, ')') {
            return Some((k2, attrs));
        }
        let k = match expect_char(s, k, ',') {
            Some(k2) => k2,
            None => {
                return None;
            },
        };
        let k = skip_space(s, k);
        if let Some(k2) = expect_char(s, k, ')') {
            return Some((k2, attrs));
        }
        match parse_node_attribute(s, k) {
            Some((k2, attr)) => {
                attrs.push(attr);
                if k2 <= j {
                    return None;
                }
                j = k2;
            },
            None => {
                return None;
            },
        }
    }
}

/// Parses one node: identifier, optional `#label`, optional attribute list.
pub fn parse_node(s: &str, i: usize) -> (r: Option<(usize, Node)>)
    requires
        i <= s@.len(),
    ensures
        r matches Some((j, _)) ==> i < j <= s@.len(),
{
    let (j, id) = match parse_identifier(s, i) {
        Some(x) => x,
        None => {
            return None;
        },
    };
    let (j, label) = match expect_char(s, j, '#') {
        Some(j2) => match parse_identifier(s, j2) {
            Some((j3, l)) => (j3, Some(l)),
            None => {
                return None;
            },
        },
        None => (j, None),
    };
    match parse_node_attribute_list(s, j) {
        Some((j2, attrs)) => Some((j2, Node { id, label, attrs })),
        None => Some((j, Node { id, label, attrs: Vec::new() })),
    }
}

/// Parses one grid row: node slots (`_` for an empty cell) separated by
/// commas and ended by `;`.
pub fn parse_row(s: &str, i: usize) -> (r: Option<(usize, Vec<Option<Node>>)>)
    requires
        i <= s@.len(),
    ensures
        r matches Some((j, _)) ==> i < j <= s@.len(),
{
    let n = s.unicode_len();
    let mut row: Vec<Option<Node>> = Vec::new();
    let mut j: usize = i;
    if let Some(j2) = tag(s, j, "_") {
        row.push(None);
        j = j2;
    } else {
        match parse_node(s, j) {
            Some((j2, node)) => {
                row.push(Some(node));
                j = j2;
            },
            None => {
                return None;
            },
        }
    }
    loop
        invariant
            i <= j <= n,
            n == s@.len(),
        decreases n - j,
    {
        let k = skip_space(s, j);
        if let Some(k2) = expect_char(s, k, ';') {
            return Some((k2, row));
        }
        let k = match expect_char(s, k, ',') {
            Some(k2) => k2,
            None => {
                return None;
            },
        };
        let k = skip_space(s, k);
        if let Some(k2) = expect_char(s, k, ';') {
            return Some((k2, row));
        }
        if let Some(k2) = tag(s, k, "_") {
            row.push(None);
            if k2 <= j {
                return None;
            }
            j = k2;
        } else {
            match parse_node(s, k) {
                Some((k2, node)) => {
                    row.push(Some(node));
                    if k2 <= j {
                        return None;
                    }
                    j = k2;
                },
                None => {
                    return None;
                },
            }
        }
    }
}

/// Parses the `grid` block: one or more rows in braces.
pub fn parse_grid(s: &str, i: usize) -> (r: Option<(usize, Grid)>)
    requires
        i <= s@.len(),
    ensures
        r matches Some((j, _)) ==> i < j <= s@.len(),
{
    let n = s.unicode_len();
    let j = match tag(s, i, "grid") {
        Some(j) => j,
        None => {
            return None;
        },
    };
    let j = skip_space(s, j);
    let mut j = match expect_char(s, j, '{') {
        Some(j) => j,
        None => {
            return None;
        },
    };
    j = skip_space(s, j);
    let mut rows: Vec<Vec<Option<Node>>> = Vec::new();
    match parse_row(s, j) {
        Some((j2, row)) => {
            rows.push(row);
            j = j2;
        },
        None => {
            return None;
        },
    }
    loop
        invariant
            i < j <= n,
            n == s@.len(),
        decreases n - j,
    {
        let k = skip_space(s, j);
        match parse_row(s, k) {
            Some((k2, row)) => {
                rows.push(row);
                if k2 <= j {
                    return None;
                }
                j = k2;
            },
            None => {
                let k2 = match expect_char(s, k, '}') {
                    Some(k2) => k2,
                    None => {
                        return None;
                    },
                };
                return Some((k2, Grid(rows)));
            },
        }
    }
}

/// Parses the `define` block: one or more `name(attributes);` entries in
/// braces.
pub fn parse_definitions(s: &str, i: usize) -> (r: Option<
    (usize, Vec<(Identifier, Vec<NodeAttribute>)>),
>)
    requires
        i <= s@.len(),
    ensures
        r matches Some((j, _)) ==> i < j <= s@.len(),
{
    let n = s.unicode_len();
    let j = match tag(s, i, "define") {
        Some(j) => j,
        None => {
            return None;
        },
    };
    let j = skip_space(s, j);
    let mut j = match expect_char(s, j, '{') {
        Some(j) => j,
        None => {
            return None;
        },
    };
    j = skip_space(s, j);
    let mut defs: Vec<(Identifier, Vec<NodeAttribute>)> = Vec::new();
    let mut parsed_one = false;
    loop
        invariant
            i < j <= n,
            n == s@.len(),
        decreases n - j,
    {
        let k = skip_space(s, j);
        match parse_identifier(s, k) {
            Some((k2, id)) => {
                let (k3, attrs) = match parse_node_attribute_list(s, k2) {
                    Some(x) => x,
                    None => {
                        return None;
                    },
                };
                let k4 = match expect_char(s, k3, ';') {
                    Some(k4) => k4,
                    None => {
                        return None;
                    },
                };
                defs.push((id, attrs));
                parsed_one = true;
                if k4 <= j {
                    return None;
                }
                j = k4;
            },
            None => {
                if !parsed_one {
                    return None;
                }
                let k2 = match expect_char(s, k, '}') {
                    Some(k2) => k2,
                    None => {
                        return None;
                    },
                };
                return Some((k2, defs));
            },
        }
    }
}

/// Parses a whole document: a `grid` block and an optional `define` block,
/// in either order, with nothing but layout around them.
pub fn parse_document(s: &str) -> (r: Result<Document, ParseError>)
    ensures
        r matches Err(e) ==> e.at <= s@.len(),
{
    let n = s.unicode_len();
    let start = skip_space(s, 0);
    let (j, grid, definitions): (usize, Grid, Vec<(Identifier, Vec<NodeAttribute>)>) =
        match parse_grid(s, start) {
        Some((j, grid)) => {
            let j2 = skip_space(s, j);
            match parse_definitions(s, j2) {
                Some((j3, defs)) => (skip_space(s, j3), grid, defs),
                None => (j2, grid, Vec::new()),
            }
        },
        None => {
            let (j, defs) = match parse_definitions(s, start) {
                Some(x) => x,
                None => {
                    return Err(ParseError { at: start });
                },
            };
            let j2 = skip_space(s, j);
            match parse_grid(s, j2) {
                Some((j3, grid)) => (skip_space(s, j3), grid, defs),
                None => {
                    return Err(ParseError { at: j2 });
                },
            }
        },
    };
    if j < n {
        return Err(ParseError { at: j });
    }
    Ok(Document { grid, definitions })
}

} // verus!
