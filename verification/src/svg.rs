//! A small vector-graphics document model: elements with attributes,
//! classes, text and children, printed as indented markup with escaped
//! attribute values and text.

use vstd::prelude::*;
use vstd::string::{StringExecFns, StrSliceExecFns};

use crate::ast::Direction;
use crate::pos::PixelPos;

verus! {

/// The decimal digits of a natural number, most significant first.
pub open spec fn spec_digits(n: nat) -> Seq<char>
    decreases n,
{
    if n < 10 {
        seq![spec_digit(n as int)]
    } else {
        spec_digits(n / 10) + seq![spec_digit((n % 10) as int)]
    }
}

/// One decimal digit as a character.
pub open spec fn spec_digit(d: int) -> char {
    if d == 0 {
        '0'
    } else if d == 1 {
        '1'
    } else if d == 2 {
        '2'
    } else if d == 3 {
        '3'
    } else if d == 4 {
        '4'
    } else if d == 5 {
        '5'
    } else if d == 6 {
        '6'
    } else if d == 7 {
        '7'
    } else if d == 8 {
        '8'
    } else {
        '9'
    }
}

/// The decimal rendering of a signed number.
pub open spec fn spec_i64_text(v: int) -> Seq<char> {
    if v < 0 {
        seq!['-'] + spec_digits((-v) as nat)
    } else {
        spec_digits(v as nat)
    }
}

fn digit_str(d: u64) -> (r: &'static str)
    requires
        d < 10,
    ensures
        r@ == seq![spec_digit(d as int)],
{
    proof {
        reveal_strlit("0");
        reveal_strlit("1");
        reveal_strlit("2");
        reveal_strlit("3");
        reveal_strlit("4");
        reveal_strlit("5");
        reveal_strlit("6");
        reveal_strlit("7");
        reveal_strlit("8");
        reveal_strlit("9");
    }
    let r = if d == 0 {
        "0"
    } else if d == 1 {
        "1"
    } else if d == 2 {
        "2"
    } else if d == 3 {
        "3"
    } else if d == 4 {
        "4"
    } else if d == 5 {
        "5"
    } else if d == 6 {
        "6"
    } else if d == 7 {
        "7"
    } else {
        "8"
    };
    if d == 9 {
        proof {
            reveal_strlit("9");
        }
        return "9";
    }
    proof {
        assert(r@ =~= seq![spec_digit(d as int)]);
    }
    r
}

fn u64_text(n: u64) -> (r: String)
    ensures
        r@ == spec_digits(n as nat),
    decreases n,
{
    if n < 10 {
        digit_str(n).to_owned()
    } else {
        let mut s = u64_text(n / 10);
        s.append(digit_str(n % 10));
        proof {
            assert(s@ =~= spec_digits(n as nat));
        }
        s
    }
}

/// Renders a machine-size count in decimal.
pub fn usize_text(n: usize) -> (r: String)
    ensures
        r@ == spec_digits(n as nat),
{
    u64_text(n as u64)
}

/// Renders a signed number in decimal.
pub fn i64_text(v: i64) -> (r: String)
    ensures
        r@ == spec_i64_text(v as int),
{
    if v < 0 {
        let mut s = String::new();
        s.append("-");
        let m: u64 = if v == i64::MIN {
            9223372036854775808u64
        } else {
            (-v) as u64
        };
        s.append(u64_text(m).as_str());
        proof {
            reveal_strlit("-");
            assert(s@ =~= spec_i64_text(v as int));
        }
        s
    } else {
        u64_text(v as u64)
    }
}

/// How one character is escaped in attribute values and text.
pub open spec fn spec_escape_char(c: char) -> Seq<char> {
    if c == '\'' {
        "&apos;"@
    } else if c == '"' {
        "&quot;"@
    } else if c == '<' {
        "&lt;"@
    } else if c == '>' {
        "&gt;"@
    } else if c == '&' {
        "&amp;"@
    } else {
        seq![c]
    }
}

/// The markup escaping of a whole string.
pub open spec fn spec_escape(s: Seq<char>) -> Seq<char>
    decreases s.len(),
{
    if s.len() == 0 {
        Seq::empty()
    } else {
        spec_escape(s.drop_last()) + spec_escape_char(s.last())
    }
}

/// Escapes the five markup metacharacters of a string.
pub fn escape(input: &str) -> (r: String)
    ensures
        r@ == spec_escape(input@),
{
    let n = input.unicode_len();
    let mut out = String::new();
    let mut i: usize = 0;
    while i < n
        invariant
            0 <= i <= n,
            n == input@.len(),
            out@ == spec_escape(input@.take(i as int)),
        decreases n - i,
    {
        proof {
            assert(input@.take(i as int + 1).drop_last() =~= input@.take(i as int));
            assert(input@.take(i as int + 1).last() == input@[i as int]);
        }
        let ghost pre = out@;
        let c = input.get_char(i);
        if c == '\'' {
            out.append("&apos;");
            proof {
                reveal_strlit("&apos;");
            }
        } else if c == '"' {
            out.append("&quot;");
            proof {
                reveal_strlit("&quot;");
            }
        } else if c == '<' {
            out.append("&lt;");
            proof {
                reveal_strlit("&lt;");
            }
        } else if c == '>' {
            out.append("&gt;");
            proof {
                reveal_strlit("&gt;");
            }
        } else if c == '&' {
            out.append("&amp;");
            proof {
                reveal_strlit("&amp;");
            }
        } else {
            let piece = input.substring_char(i, i + 1);
            out.append(piece);
            proof {
                assert(piece@ =~= seq![input@[i as int]]);
            }
        }
        proof {
            assert(out@ =~= pre + spec_escape_char(input@[i as int]));
        }
        i += 1;
    }
    proof {
        assert(input@.take(n as int) =~= input@);
    }
    out
}

/// Escapes an owned string; the companion of `escape` for owned values.
pub fn escape_cow(input: String) -> (r: String)
    ensures
        r@ == spec_escape(input@),
{
    escape(input.as_str())
}

/// The indentation of a nesting depth: two spaces per level.
pub open spec fn spec_indent(depth: nat) -> Seq<char>
    decreases depth,
{
    if depth == 0 {
        Seq::empty()
    } else {
        spec_indent((depth - 1) as nat) + "  "@
    }
}

/// Renders the indentation of a nesting depth.
pub fn indent(depth: usize) -> (r: String)
    ensures
        r@ == spec_indent(depth as nat),
{
    let mut out = String::new();
    let mut k: usize = 0;
    while k < depth
        invariant
            0 <= k <= depth,
            out@ == spec_indent(k as nat),
        decreases depth - k,
    {
        out.append("  ");
        k += 1;
    }
    out
}

/// One child of an element: raw text or a nested element.
#[derive(Debug)]
pub enum Node {
    Text(String),
    Element(SVGElement),
}

/// A markup element: its tag, attributes, classes and children.
#[derive(Debug)]
pub struct SVGElement {
    pub tag: String,
    pub attributes: Vec<(String, String)>,
    pub classes: Vec<String>,
    pub children: Vec<Node>,
}

impl Node {
    /// Prints one child at a nesting depth: text lines each on their own
    /// indented line, an element through its own printer.
    pub fn print(&self, depth: usize) -> (r: String)
        decreases *self,
    {
        match self {
            Node::Text(text) => {
                let mut out = indent(depth);
                out.append(text.as_str());
                out
            },
            Node::Element(el) => el.print(depth),
        }
    }
}

impl SVGElement {
    /// A fresh element with the given tag.
    pub fn new(tag: &str) -> (r: SVGElement)
        ensures
            r.tag@ == tag@,
            r.attributes@.len() == 0,
            r.classes@.len() == 0,
            r.children@.len() == 0,
    {
        SVGElement {
            tag: tag.to_owned(),
            attributes: Vec::new(),
            classes: Vec::new(),
            children: Vec::new(),
        }
    }

    /// Adds one attribute.
    pub fn attr(self, key: &str, value: &str) -> (r: SVGElement)
        ensures
            r.tag == self.tag,
            r.classes == self.classes,
            r.children == self.children,
            r.attributes@.len() == self.attributes@.len() + 1,
            forall|i: int|
                0 <= i < self.attributes@.len() ==> r.attributes@[i] == self.attributes@[i],
            r.attributes@.last().0@ == key@ && r.attributes@.last().1@ == value@,
    {
        let mut attributes = self.attributes;
        attributes.push((key.to_owned(), value.to_owned()));
        SVGElement { tag: self.tag, attributes, classes: self.classes, children: self.children }
    }

    /// Adds the `x`/`y` position attributes.
    pub fn pos(self, p: PixelPos) -> (r: SVGElement)
        ensures
            r.tag == self.tag,
            r.classes == self.classes,
            r.children == self.children,
    {
        let x = i64_text(p.x);
        let y = i64_text(p.y);
        self.attr("x", x.as_str()).attr("y", y.as_str())
    }

    /// Adds the `cx`/`cy` centre attributes.
    pub fn cpos(self, p: PixelPos) -> (r: SVGElement)
        ensures
            r.tag == self.tag,
            r.classes == self.classes,
            r.children == self.children,
    {
        let x = i64_text(p.x);
        let y = i64_text(p.y);
        self.attr("cx", x.as_str()).attr("cy", y.as_str())
    }

    /// Adds the `width`/`height` size attributes.
    pub fn size(self, sz: PixelPos) -> (r: SVGElement)
        ensures
            r.tag == self.tag,
            r.classes == self.classes,
            r.children == self.children,
    {
        let w = i64_text(sz.x);
        let h = i64_text(sz.y);
        self.attr("width", w.as_str()).attr("height", h.as_str())
    }

    /// Adds one class name.
    pub fn class(self, s: &str) -> (r: SVGElement)
        ensures
            r.tag == self.tag,
            r.attributes == self.attributes,
            r.children == self.children,
            r.classes@.len() == self.classes@.len() + 1,
            forall|i: int| 0 <= i < self.classes@.len() ==> r.classes@[i] == self.classes@[i],
            r.classes@.last()@ == s@,
    {
        let mut classes = self.classes;
        classes.push(s.to_owned());
        SVGElement { tag: self.tag, attributes: self.attributes, classes, children: self.children }
    }

    /// Adds a class name where one is present.
    pub fn class_opt(self, s: Option<&String>) -> (r: SVGElement)
        ensures
            r.tag == self.tag,
            r.attributes == self.attributes,
            r.children == self.children,
            s is None ==> r.classes == self.classes,
            s is Some ==> r.classes@.len() == self.classes@.len() + 1,
    {
        match s {
            Some(c) => self.class(c.as_str()),
            None => self,
        }
    }

    /// Adds one child element.
    pub fn child(self, child: SVGElement) -> (r: SVGElement)
        ensures
            r.tag == self.tag,
            r.attributes == self.attributes,
            r.classes == self.classes,
            r.children@.len() == self.children@.len() + 1,
            forall|i: int| 0 <= i < self.children@.len() ==> r.children@[i] == self.children@[i],
    {
        let mut children = self.children;
        children.push(Node::Element(child));
        SVGElement { tag: self.tag, attributes: self.attributes, classes: self.classes, children }
    }

    /// Adds a child element where one is present.
    pub fn child_opt(self, child: Option<SVGElement>) -> (r: SVGElement)
        ensures
            r.tag == self.tag,
            r.attributes == self.attributes,
            r.classes == self.classes,
            child is None ==> r.children == self.children,
            child is Some ==> r.children@.len() == self.children@.len() + 1,
    {
        match child {
            Some(c) => self.child(c),
            None => self,
        }
    }

    /// Adds escaped text as a child.
    pub fn text(self, text: &str) -> (r: SVGElement)
        ensures
            r.tag == self.tag,
            r.attributes == self.attributes,
            r.classes == self.classes,
            r.children@.len() == self.children@.len() + 1,
            forall|i: int| 0 <= i < self.children@.len() ==> r.children@[i] == self.children@[i],
            r.children@.last() matches Node::Text(t) && t@ == spec_escape(text@),
    {
        let mut children = self.children;
        let escaped = escape(text);
        children.push(Node::Text(escaped));
        SVGElement { tag: self.tag, attributes: self.attributes, classes: self.classes, children }
    }

    /// Adds a run of child elements.
    pub fn children(self, items: Vec<SVGElement>) -> (r: SVGElement)
        ensures
            r.tag == self.tag,
            r.attributes == self.attributes,
            r.classes == self.classes,
            r.children@.len() == self.children@.len() + items@.len(),
    {
        let ghost base = self;
        let ghost total = items@.len();
        let mut out = self;
        let mut rest = items;
        while rest.len() > 0
            invariant
                out.tag == base.tag,
                out.attributes == base.attributes,
                out.classes == base.classes,
                out.children@.len() + rest@.len() == base.children@.len() + total,
            decreases rest@.len(),
        {
            let first = rest.remove(0);
            out = out.child(first);
        }
        out
    }

    /// Prints the element as indented markup.
    pub fn print(&self, depth: usize) -> (r: String)
        ensures
            r@.len() > 0,
        decreases *self,
    {
        let mut out = indent(depth);
        out.append("<");
        proof {
            reveal_strlit("<");
        }
        out.append(self.tag.as_str());
        if self.classes.len() > 0 {
            out.append(" class=\"");
            let mut k: usize = 0;
            while k < self.classes.len()
                invariant
                    0 <= k <= self.classes@.len(),
                    out@.len() > 0,
                decreases self.classes@.len() - k,
            {
                if k > 0 {
                    out.append(" ");
                }
                let escaped = escape(self.classes[k].as_str());
                out.append(escaped.as_str());
                k += 1;
            }
            out.append("\"");
        }
        let mut k: usize = 0;
        while k < self.attributes.len()
            invariant
                0 <= k <= self.attributes@.len(),
                out@.len() > 0,
            decreases self.attributes@.len() - k,
        {
            out.append(" ");
            out.append(self.attributes[k].0.as_str());
            out.append("=\"");
            let escaped = escape(self.attributes[k].1.as_str());
            out.append(escaped.as_str());
            out.append("\"");
            k += 1;
        }
        if self.children.len() == 0 {
            out.append(" />");
            return out;
        }
        out.append(">");
        let lone_text = if self.children.len() == 1 {
            match &self.children[0] {
                Node::Text(_) => true,
                Node::Element(_) => false,
            }
        } else {
            false
        };
        if lone_text {
            let piece = self.children[0].print(0);
            out.append(piece.as_str());
        } else {
            let mut k: usize = 0;
            while k < self.children.len()
                invariant
                    0 <= k <= self.children@.len(),
                    out@.len() > 0,
                decreases self.children@.len() - k,
            {
                out.append("\n");
                let next_depth: usize = if depth < 1000000 {
                    depth + 1
                } else {
                    depth
                };
                let piece = self.children[k].print(next_depth);
                out.append(piece.as_str());
                k += 1;
            }
            out.append("\n");
            let ind = indent(depth);
            out.append(ind.as_str());
        }
        out.append("</");
        out.append(self.tag.as_str());
        out.append(">");
        out
    }

    /// The whole document as text, from nesting depth zero.
    pub fn to_text(&self) -> (r: String)
        ensures
            r@.len() > 0,
    {
        self.print(0)
    }
}

} // verus!

verus! {

/// Truncating halving, as machine division rounds toward zero.
pub open spec fn spec_half_trunc(v: int) -> int {
    if v >= 0 {
        v / 2
    } else {
        -((-v) / 2)
    }
}

/// Multiplies a small unit factor without machine multiplication.
pub fn scale_unit(u: i64, v: i64) -> (r: i64)
    requires
        -2 <= u <= 2,
        -10000000000000000 <= v <= 10000000000000000,
    ensures
        r as int == u * v,
{
    proof {
        assert(0int * v == 0 && 1int * v == v && (-1int) * v == -v && 2int * v == v + v && (
        -2int) * v == -(v + v)) by (nonlinear_arith);
    }
    if u == 0 {
        0
    } else if u == 1 {
        v
    } else if u == -1 {
        -v
    } else if u == 2 {
        v + v
    } else {
        let m = v + v;
        -m
    }
}

/// Halves a value rounding toward zero.
pub fn half_trunc(v: i64) -> (r: i64)
    requires
        v > i64::MIN,
    ensures
        r as int == spec_half_trunc(v as int),
{
    if v >= 0 {
        ((v as u64) / 2) as i64
    } else {
        let m = (((-v) as u64) / 2) as i64;
        -m
    }
}

/// One command of a path outline.
#[derive(Debug, PartialEq, Eq)]
pub enum PathD {
    MoveTo(PixelPos),
    LineTo(PixelPos),
    End,
}

impl PathD {
    /// The command as path-data text.
    pub open spec fn spec_text(self) -> Seq<char> {
        match self {
            PathD::MoveTo(p) => "M "@ + spec_i64_text(p.x as int) + " "@ + spec_i64_text(
                p.y as int,
            ),
            PathD::LineTo(p) => "L "@ + spec_i64_text(p.x as int) + " "@ + spec_i64_text(
                p.y as int,
            ),
            PathD::End => "Z"@,
        }
    }

    pub fn to_text(&self) -> (r: String)
        ensures
            r@ == self.spec_text(),
    {
        match self {
            PathD::MoveTo(p) => {
                let mut out = String::new();
                out.append("M ");
                out.append(i64_text(p.x).as_str());
                out.append(" ");
                out.append(i64_text(p.y).as_str());
                proof {
                    assert(out@ =~= self.spec_text());
                }
                out
            },
            PathD::LineTo(p) => {
                let mut out = String::new();
                out.append("L ");
                out.append(i64_text(p.x).as_str());
                out.append(" ");
                out.append(i64_text(p.y).as_str());
                proof {
                    assert(out@ =~= self.spec_text());
                }
                out
            },
            PathD::End => {
                let mut out = String::new();
                out.append("Z");
                proof {
                    reveal_strlit("Z");
                    assert(out@ =~= self.spec_text());
                }
                out
            },
        }
    }
}

/// A polyline path under construction.
#[derive(Debug)]
pub struct SVGPath {
    pub d: Vec<PathD>,
}

/// The space-joined path data of a command list.
pub open spec fn spec_path_data(d: Seq<PathD>) -> Seq<char>
    decreases d.len(),
{
    if d.len() == 0 {
        Seq::empty()
    } else if d.len() == 1 {
        d.last().spec_text()
    } else {
        spec_path_data(d.drop_last()) + " "@ + d.last().spec_text()
    }
}

impl SVGPath {
    pub fn new() -> (r: SVGPath)
        ensures
            r.d@.len() == 0,
    {
        SVGPath { d: Vec::new() }
    }

    /// Appends a point: the first point moves, later points draw lines.
    pub fn line_to(self, p: PixelPos) -> (r: SVGPath)
        ensures
            r.d@.len() == self.d@.len() + 1,
            forall|i: int| 0 <= i < self.d@.len() ==> r.d@[i] == self.d@[i],
            r.d@.last() == (if self.d@.len() == 0 {
                PathD::MoveTo(p)
            } else {
                PathD::LineTo(p)
            }),
    {
        let mut d = self.d;
        if d.len() == 0 {
            d.push(PathD::MoveTo(p));
        } else {
            d.push(PathD::LineTo(p));
        }
        SVGPath { d }
    }

    /// Closes the outline.
    pub fn end(self) -> (r: SVGPath)
        ensures
            r.d@.len() == self.d@.len() + 1,
            forall|i: int| 0 <= i < self.d@.len() ==> r.d@[i] == self.d@[i],
            r.d@.last() == PathD::End,
    {
        let mut d = self.d;
        d.push(PathD::End);
        SVGPath { d }
    }

    /// The joined path data.
    pub fn get_d(&self) -> (r: String)
        ensures
            r@ == spec_path_data(self.d@),
    {
        let mut out = String::new();
        let mut k: usize = 0;
        while k < self.d.len()
            invariant
                0 <= k <= self.d@.len(),
                out@ == spec_path_data(self.d@.take(k as int)),
            decreases self.d@.len() - k,
        {
            proof {
                assert(self.d@.take(k as int + 1).drop_last() =~= self.d@.take(k as int));
                assert(self.d@.take(k as int + 1).last() == self.d@[k as int]);
            }
            let ghost pre = out@;
            if k > 0 {
                out.append(" ");
            }
            let piece = self.d[k].to_text();
            out.append(piece.as_str());
            proof {
                if k == 0 {
                    assert(out@ =~= spec_path_data(self.d@.take(1)));
                } else {
                    assert(out@ =~= spec_path_data(self.d@.take(k as int + 1)));
                }
            }
            k += 1;
        }
        proof {
            assert(self.d@.take(self.d@.len() as int) =~= self.d@);
        }
        out
    }

    /// The path as an element.
    pub fn render(self) -> (r: SVGElement) {
        let d = self.get_d();
        SVGElement::new("path").attr("d", d.as_str())
    }
}

/// A text block at a pixel position.
#[derive(Debug)]
pub struct SVGText {
    pub pos: PixelPos,
}

/// Splits a string at line breaks.
fn split_lines(s: &str) -> (r: Vec<String>) {
    let n = s.unicode_len();
    let mut lines: Vec<String> = Vec::new();
    let mut cur = String::new();
    let mut i: usize = 0;
    while i < n
        invariant
            0 <= i <= n,
            n == s@.len(),
        decreases n - i,
    {
        let c = s.get_char(i);
        if c == '\n' {
            lines.push(cur);
            cur = String::new();
        } else if c != '\r' {
            let piece = s.substring_char(i, i + 1);
            cur.append(piece);
        }
        i += 1;
    }
    lines.push(cur);
    lines
}

impl SVGText {
    pub fn new(pos: PixelPos) -> (r: SVGText)
        ensures
            r.pos == pos,
    {
        SVGText { pos }
    }

    /// The vertical offset of a line within a centred block, in `em` units:
    /// the first line climbs half the block, later lines step one line.
    pub fn calculate_offset(line_number: usize, line_count: usize) -> (r: String)
        requires
            line_count >= 1,
            line_count <= 1000000,
    {
        if line_number == 0 {
            let m: u64 = (line_count - 1) as u64;
            let mut out = String::new();
            if m == 0 {
                out.append("0");
                return out;
            }
            out.append("-");
            out.append(u64_text(m / 2).as_str());
            if m % 2 == 1 {
                out.append(".5");
            }
            out
        } else {
            let mut out = String::new();
            out.append("1");
            out
        }
    }

    /// Renders the text: one line inline, several lines as stacked spans.
    pub fn render(self, s: &str) -> (r: SVGElement) {
        let text = SVGElement::new("text").pos(self.pos);
        let lines = split_lines(s);
        if lines.len() <= 1 {
            return text.text(s);
        }
        let count = lines.len();
        if count > 1000000 {
            return text.text(s);
        }
        let mut spans: Vec<SVGElement> = Vec::new();
        let mut k: usize = 0;
        while k < lines.len()
            invariant
                0 <= k <= lines@.len(),
                1 <= lines@.len() <= 1000000,
                count == lines@.len(),
            decreases lines@.len() - k,
        {
            let offset = SVGText::calculate_offset(k, count);
            let mut dy = offset;
            dy.append("em");
            let x = i64_text(self.pos.x);
            let span = SVGElement::new("tspan").attr("x", x.as_str()).attr(
                "dy",
                dy.as_str(),
            ).text(lines[k].as_str());
            spans.push(span);
            k += 1;
        }
        text.children(spans)
    }
}

/// The four corner points of an arrowhead outline.
#[derive(Debug, PartialEq, Eq)]
pub struct ArrowheadPoints {
    pub tip: PixelPos,
    pub center: PixelPos,
    pub left_corner: PixelPos,
    pub right_corner: PixelPos,
}

impl ArrowheadPoints {
    /// The arrowhead as a closed outline.
    pub fn render(self) -> (r: SVGElement) {
        SVGPath::new().line_to(self.tip).line_to(self.left_corner).line_to(self.center).line_to(
            self.right_corner,
        ).line_to(self.tip).render()
    }
}

/// An arrowhead at a connection end.
pub struct ArrowHead;

/// The bound on pixel quantities the arrowhead arithmetic accepts.
pub open spec fn spec_pixel_small(p: PixelPos) -> bool {
    -10000000000000000 <= p.x <= 10000000000000000 && -10000000000000000 <= p.y
        <= 10000000000000000
}

impl ArrowHead {
    /// The outline points of an arrowhead whose tip sits at the viewport
    /// origin, facing `dir`; the viewport size is wingspan by length.
    pub open spec fn spec_get_points(origin: PixelPos, size: PixelPos, dir: Direction) -> ArrowheadPoints {
        let back = dir.spec_reverse();
        let sz = if back == Direction::East || back == Direction::West {
            PixelPos { x: size.y, y: size.x }
        } else {
            size
        };
        let center = PixelPos {
            x: (origin.x + spec_half_trunc(back.spec_dx() * sz.x)) as i64,
            y: (origin.y + spec_half_trunc(back.spec_dy() * sz.y)) as i64,
        };
        let lc = PixelPos {
            x: (center.x + spec_half_trunc(
                (back.spec_dx() + back.spec_rotate_clockwise().spec_dx()) * sz.x,
            )) as i64,
            y: (center.y + spec_half_trunc(
                (back.spec_dy() + back.spec_rotate_clockwise().spec_dy()) * sz.y,
            )) as i64,
        };
        let rc = PixelPos {
            x: (center.x + spec_half_trunc(
                (back.spec_dx() + back.spec_rotate_counter_clockwise().spec_dx()) * sz.x,
            )) as i64,
            y: (center.y + spec_half_trunc(
                (back.spec_dy() + back.spec_rotate_counter_clockwise().spec_dy()) * sz.y,
            )) as i64,
        };
        ArrowheadPoints { tip: origin, center, left_corner: lc, right_corner: rc }
    }

    /// Computes the arrowhead outline points.
    pub fn get_points(origin: PixelPos, size: PixelPos, dir: Direction) -> (r: ArrowheadPoints)
        requires
            spec_pixel_small(origin),
            spec_pixel_small(size),
        ensures
            r == ArrowHead::spec_get_points(origin, size, dir),
    {
        let back = dir.reverse();
        let sz = match back {
            Direction::East | Direction::West => PixelPos { x: size.y, y: size.x },
            _ => size,
        };
        let center = PixelPos {
            x: origin.x + half_trunc(scale_unit(back.dx(), sz.x)),
            y: origin.y + half_trunc(scale_unit(back.dy(), sz.y)),
        };
        let cw = back.rotate_clockwise();
        let ccw = back.rotate_counter_clockwise();
        let lc = PixelPos {
            x: center.x + half_trunc(scale_unit(back.dx() + cw.dx(), sz.x)),
            y: center.y + half_trunc(scale_unit(back.dy() + cw.dy(), sz.y)),
        };
        let rc = PixelPos {
            x: center.x + half_trunc(scale_unit(back.dx() + ccw.dx(), sz.x)),
            y: center.y + half_trunc(scale_unit(back.dy() + ccw.dy(), sz.y)),
        };
        ArrowheadPoints { tip: origin, center, left_corner: lc, right_corner: rc }
    }

    /// Renders the arrowhead outline.
    pub fn render(origin: PixelPos, size: PixelPos, dir: Direction) -> (r: SVGElement)
        requires
            spec_pixel_small(origin),
            spec_pixel_small(size),
    {
        ArrowHead::get_points(origin, size, dir).render()
    }
}

} // verus!
