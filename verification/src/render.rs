//! The vector-graphics renderer: node boxes in their grid cells, routed
//! connection polylines with arrowheads and labels, all assembled into one
//! markup document.

use vstd::prelude::*;
use vstd::string::StringExecFns;

use crate::ast::{ArrowheadType, Direction, NodeShape};
use crate::flou::{Connection, Flou, NodeAttributes};
use crate::pos::{IndexPos, PaddedPos, PixelPos, GRID_LIMIT};
use crate::svg::{
    escape, half_trunc, i64_text, scale_unit, ArrowHead, SVGElement, SVGPath, SVGText,
};

verus! {

/// A pixel-space rectangle: an origin and a size.
#[derive(Debug, Clone, Copy, PartialEq, Eq, Structural)]
pub struct Viewport {
    pub origin: PixelPos,
    pub size: PixelPos,
}

/// The four edge midpoints of a rectangle.
#[derive(Debug, Clone, Copy, PartialEq, Eq, Structural)]
pub struct Midpoints {
    pub top: PixelPos,
    pub bottom: PixelPos,
    pub left: PixelPos,
    pub right: PixelPos,
}

/// A viewport whose origin leaves room for derived inner viewports.
pub open spec fn viewport_tight(v: Viewport) -> bool {
    viewport_ok(v) && v.origin.x <= 10000000000000000 && v.origin.y <= 10000000000000000
}

/// Pixel values the renderer arithmetic accepts without overflow.
pub open spec fn viewport_ok(v: Viewport) -> bool {
    &&& 0 <= v.origin.x <= 20000000000000000
    &&& 0 <= v.origin.y <= 20000000000000000
    &&& 0 <= v.size.x <= 2147483647
    &&& 0 <= v.size.y <= 2147483647
}

impl Midpoints {
    /// The midpoint of the edge a direction points at.
    pub fn get_from_direction(&self, dir: Direction) -> (r: PixelPos)
        ensures
            r == (match dir {
                Direction::North => self.top,
                Direction::East => self.right,
                Direction::West => self.left,
                Direction::South => self.bottom,
            }),
    {
        match dir {
            Direction::North => self.top,
            Direction::East => self.right,
            Direction::West => self.left,
            Direction::South => self.bottom,
        }
    }
}

impl Viewport {
    pub fn new(origin: PixelPos, size: PixelPos) -> (r: Viewport)
        ensures
            r.origin == origin && r.size == size,
    {
        Viewport { origin, size }
    }

    /// The centre of the rectangle.
    pub fn center(&self) -> (r: PixelPos)
        requires
            viewport_ok(*self),
        ensures
            r.x == self.origin.x + self.size.x / 2,
            r.y == self.origin.y + self.size.y / 2,
    {
        PixelPos {
            x: self.origin.x + ((self.size.x as u64) / 2) as i64,
            y: self.origin.y + ((self.size.y as u64) / 2) as i64,
        }
    }

    /// The edge midpoints relative to the origin.
    pub fn midpoints_relative(&self) -> (r: Midpoints)
        requires
            viewport_ok(*self),
        ensures
            r.top == (PixelPos { x: (self.size.x / 2) as i64, y: 0 }),
            r.bottom == (PixelPos { x: (self.size.x / 2) as i64, y: self.size.y }),
            r.left == (PixelPos { x: 0, y: (self.size.y / 2) as i64 }),
            r.right == (PixelPos { x: self.size.x, y: (self.size.y / 2) as i64 }),
    {
        let hx = ((self.size.x as u64) / 2) as i64;
        let hy = ((self.size.y as u64) / 2) as i64;
        Midpoints {
            top: PixelPos { x: hx, y: 0 },
            bottom: PixelPos { x: hx, y: self.size.y },
            left: PixelPos { x: 0, y: hy },
            right: PixelPos { x: self.size.x, y: hy },
        }
    }

    /// The edge midpoints in absolute pixels.
    pub fn midpoints(&self) -> (r: Midpoints)
        requires
            viewport_ok(*self),
    {
        let rel = self.midpoints_relative();
        Midpoints {
            top: self.origin.plus(rel.top),
            bottom: self.origin.plus(rel.bottom),
            left: self.origin.plus(rel.left),
            right: self.origin.plus(rel.right),
        }
    }
}

impl NodeShape {
    /// Renders the shape into a viewport.
    pub fn render(&self, viewport: Viewport) -> (r: SVGElement)
        requires
            viewport_tight(viewport),
    {
        match self {
            NodeShape::Rectangle => SVGElement::new("rect").class("rect").pos(
                viewport.origin,
            ).size(viewport.size),
            NodeShape::Square => {
                let side: i64 = if viewport.size.x < viewport.size.y {
                    viewport.size.x
                } else {
                    viewport.size.y
                };
                let ox = viewport.origin.x + ((viewport.size.x - side) as u64 / 2) as i64;
                let oy = viewport.origin.y + ((viewport.size.y - side) as u64 / 2) as i64;
                SVGElement::new("rect").class("square").pos(PixelPos { x: ox, y: oy }).size(
                    PixelPos { x: side, y: side },
                )
            },
            NodeShape::Diamond => {
                let m = viewport.midpoints();
                SVGPath::new().line_to(m.top).line_to(m.left).line_to(m.bottom).line_to(
                    m.right,
                ).end().render().class("diamond")
            },
            NodeShape::AngledSquare => {
                let side: i64 = if viewport.size.x < viewport.size.y {
                    viewport.size.x
                } else {
                    viewport.size.y
                };
                let ox = viewport.origin.x + ((viewport.size.x - side) as u64 / 2) as i64;
                let oy = viewport.origin.y + ((viewport.size.y - side) as u64 / 2) as i64;
                let inner = Viewport::new(
                    PixelPos { x: ox, y: oy },
                    PixelPos { x: side, y: side },
                );
                let m = inner.midpoints();
                SVGPath::new().line_to(m.top).line_to(m.left).line_to(m.bottom).line_to(
                    m.right,
                ).end().render().class("angled_square")
            },
            NodeShape::Ellipse => {
                let rx = ((viewport.size.x as u64) / 2) as i64;
                let ry = ((viewport.size.y as u64) / 2) as i64;
                let c = viewport.center();
                let rxs = i64_text(rx);
                let rys = i64_text(ry);
                SVGElement::new("ellipse").class("ellipse").cpos(c).attr(
                    "rx",
                    rxs.as_str(),
                ).attr("ry", rys.as_str())
            },
            NodeShape::Circle => {
                let d: i64 = if viewport.size.x < viewport.size.y {
                    viewport.size.x
                } else {
                    viewport.size.y
                };
                let radius = ((d as u64) / 2) as i64;
                let c = viewport.center();
                let rs = i64_text(radius);
                SVGElement::new("circle").class("circle").cpos(c).attr("r", rs.as_str())
            },
        }
    }
}

impl NodeAttributes {
    /// The grouping element every node is wrapped in.
    pub fn wrapper() -> (r: SVGElement)
        ensures
            r.children@.len() == 0,
    {
        SVGElement::new("g").class("node-wrapper")
    }

    /// Renders a node that has no attribute record.
    pub fn render_default(viewport: Viewport) -> (r: SVGElement)
        requires
            viewport_tight(viewport),
    {
        let shape = NodeShape::Rectangle.render(viewport);
        NodeAttributes::wrapper().child(shape.class("node"))
    }

    /// Renders a node: its shape, class and text.
    pub fn render(&self, viewport: Viewport) -> (r: SVGElement)
        requires
            viewport_tight(viewport),
    {
        let shape_kind = match self.shape {
            Some(sh) => sh,
            None => NodeShape::Rectangle,
        };
        let shape = shape_kind.render(viewport);
        let text = match &self.text {
            Some(t) => Some(SVGText::new(viewport.center()).render(t.as_str())),
            None => None,
        };
        NodeAttributes::wrapper().class_opt(self.class.as_ref()).child(
            shape.class("node"),
        ).child_opt(text)
    }

    /// The point on the node's outline where a connection attaches, relative
    /// to the viewport origin.
    pub fn link_point(&self, viewport: Viewport, dir: Direction) -> (r: PixelPos)
        requires
            viewport_tight(viewport),
        ensures
            -30000000000000000 <= r.x <= 30000000000000000,
            -30000000000000000 <= r.y <= 30000000000000000,
    {
        let shape_kind = match self.shape {
            Some(sh) => sh,
            None => NodeShape::Rectangle,
        };
        match shape_kind {
            NodeShape::Circle | NodeShape::Square | NodeShape::AngledSquare => {
                let d: i64 = if viewport.size.x < viewport.size.y {
                    viewport.size.x
                } else {
                    viewport.size.y
                };
                let radius = ((d as u64) / 2) as i64;
                let center = viewport.center();
                let m = Midpoints {
                    top: PixelPos {
                        x: center.x - viewport.origin.x,
                        y: center.y - radius - viewport.origin.y,
                    },
                    bottom: PixelPos {
                        x: center.x - viewport.origin.x,
                        y: center.y + radius - viewport.origin.y,
                    },
                    left: PixelPos {
                        x: center.x - radius - viewport.origin.x,
                        y: center.y - viewport.origin.y,
                    },
                    right: PixelPos {
                        x: center.x + radius - viewport.origin.x,
                        y: center.y - viewport.origin.y,
                    },
                };
                m.get_from_direction(dir)
            },
            _ => viewport.midpoints_relative().get_from_direction(dir),
        }
    }
}

/// How the renderer is configured: node size, lane gap size and extra
/// stylesheet text.
#[derive(Debug)]
pub struct RenderConfig {
    pub node: PixelPos,
    pub grid_gap: PixelPos,
    pub css: Vec<String>,
}

impl RenderConfig {
    /// Acceptable configurations: nonnegative sizes within pixel range.
    pub open spec fn valid(self) -> bool {
        &&& 0 <= self.node.x <= 2147483647
        &&& 0 <= self.node.y <= 2147483647
        &&& 0 <= self.grid_gap.x <= 2147483647
        &&& 0 <= self.grid_gap.y <= 2147483647
    }
}

impl Default for RenderConfig {
    /// The stock configuration: 100 by 50 nodes with 50 pixel gaps.
    fn default() -> (r: RenderConfig)
        ensures
            r.node == (PixelPos { x: 100, y: 50 }),
            r.grid_gap == (PixelPos { x: 50, y: 50 }),
            r.css@.len() == 0,
            r.valid(),
    {
        RenderConfig {
            node: PixelPos { x: 100, y: 50 },
            grid_gap: PixelPos { x: 50, y: 50 },
            css: Vec::new(),
        }
    }
}

/// Multiplies a cell count by a pixel quantity.
fn mul_cells(a: i64, b: i64) -> (r: i64)
    requires
        -1 <= a <= 2 * GRID_LIMIT + 3,
        0 <= b <= 2147483647,
    ensures
        r as int == a * b,
        -2147483647 <= r <= 4700000000000000,
        a >= 0 ==> r >= 0,
{
    proof {
        assert((-1) * b <= a * b <= (2 * GRID_LIMIT + 3) * b && (2 * GRID_LIMIT + 3) * b <= (2
            * GRID_LIMIT + 3) * 2147483647int && (-1) * b >= -2147483647 && (a >= 0 ==> a * b
            >= 0)) by (nonlinear_arith)
            requires
                -1 <= a <= 2 * GRID_LIMIT + 3,
                0 <= b <= 2147483647,
        ;
    }
    a * b
}

/// The renderer: turns a validated diagram into markup.
pub struct SvgRenderer {
    pub config: RenderConfig,
}

impl SvgRenderer {
    /// A renderer with the given node and gap sizes, or the stock sizes.
    pub fn new(node_size: Option<(i64, i64)>, grid_gap_size: Option<(i64, i64)>) -> (r:
        SvgRenderer)
        requires
            node_size matches Some(n) ==> 0 <= n.0 <= 2147483647 && 0 <= n.1 <= 2147483647,
            grid_gap_size matches Some(g) ==> 0 <= g.0 <= 2147483647 && 0 <= g.1 <= 2147483647,
        ensures
            r.config.valid(),
    {
        let base = RenderConfig::default();
        let node = match node_size {
            Some((x, y)) => PixelPos { x, y },
            None => base.node,
        };
        let grid_gap = match grid_gap_size {
            Some((x, y)) => PixelPos { x, y },
            None => base.grid_gap,
        };
        SvgRenderer { config: RenderConfig { node, grid_gap, css: base.css } }
    }

    /// The pixel origin of a grid cell: cells plus the gaps around them.
    pub open spec fn spec_node_origin(config: RenderConfig, pos: IndexPos) -> PixelPos {
        PixelPos {
            x: (pos.x * config.node.x + (pos.x + 1) * config.grid_gap.x) as i64,
            y: (pos.y * config.node.y + (pos.y + 1) * config.grid_gap.y) as i64,
        }
    }

    /// Computes the pixel origin of a grid cell.
    pub fn calculate_node_origin(config: &RenderConfig, pos: IndexPos) -> (r: PixelPos)
        requires
            config.valid(),
            -1 <= pos.x <= GRID_LIMIT + 1,
            -1 <= pos.y <= GRID_LIMIT + 1,
        ensures
            r == SvgRenderer::spec_node_origin(*config, pos),
            -4294967294 <= r.x <= 9400000000000000,
            -4294967294 <= r.y <= 9400000000000000,
            pos.x >= 0 ==> r.x >= 0,
            pos.y >= 0 ==> r.y >= 0,
    {
        let x = mul_cells(pos.x, config.node.x) + mul_cells(pos.x + 1, config.grid_gap.x);
        let y = mul_cells(pos.y, config.node.y) + mul_cells(pos.y + 1, config.grid_gap.y);
        PixelPos { x, y }
    }

    /// The pixel position of a padded-space coordinate: the origin of the
    /// nearest cell, plus a node size on each axis the coordinate has
    /// passed beyond that cell.
    pub open spec fn spec_origin(config: RenderConfig, p: PaddedPos) -> PixelPos {
        let aligned = p.spec_snap_to_grid();
        let cell = IndexPos { x: ((aligned.x - 1) / 2) as i64, y: ((aligned.y - 1) / 2) as i64 };
        let base = SvgRenderer::spec_node_origin(config, cell);
        PixelPos {
            x: (base.x + (if p.x != aligned.x {
                config.node.x as int
            } else {
                0
            })) as i64,
            y: (base.y + (if p.y != aligned.y {
                config.node.y as int
            } else {
                0
            })) as i64,
        }
    }

    /// Computes the pixel position of a padded-space coordinate.
    pub fn calculate_origin(config: &RenderConfig, p: PaddedPos) -> (r: PixelPos)
        requires
            config.valid(),
            0 <= p.x <= 2 * GRID_LIMIT + 2,
            0 <= p.y <= 2 * GRID_LIMIT + 2,
        ensures
            r == SvgRenderer::spec_origin(*config, p),
            -4294967294 <= r.x <= 9500000000000000,
            -4294967294 <= r.y <= 9500000000000000,
    {
        let aligned = p.snap_to_grid();
        let ix: i64 = if aligned.x >= 1 {
            (((aligned.x - 1) as u64) / 2) as i64
        } else {
            -1
        };
        let iy: i64 = if aligned.y >= 1 {
            (((aligned.y - 1) as u64) / 2) as i64
        } else {
            -1
        };
        proof {
            assert(aligned.x >= 1 ==> ix as int == (aligned.x - 1) / 2);
            assert(aligned.x < 1 ==> aligned.x == -1 && (aligned.x - 1) / 2 == -1);
            assert(aligned.y >= 1 ==> iy as int == (aligned.y - 1) / 2);
            assert(aligned.y < 1 ==> aligned.y == -1 && (aligned.y - 1) / 2 == -1);
        }
        let base = SvgRenderer::calculate_node_origin(config, IndexPos { x: ix, y: iy });
        let x = base.x + (if p.x != aligned.x {
            config.node.x
        } else {
            0
        });
        let y = base.y + (if p.y != aligned.y {
            config.node.y
        } else {
            0
        });
        PixelPos { x, y }
    }

    /// The total pixel size of the rendered image.
    pub fn calculate_svg_size(config: &RenderConfig, grid_size: IndexPos) -> (r: PixelPos)
        requires
            config.valid(),
            0 <= grid_size.x <= GRID_LIMIT,
            0 <= grid_size.y <= GRID_LIMIT,
        ensures
            r == SvgRenderer::spec_origin(*config, PaddedPos::spec_of_index(grid_size)),
    {
        SvgRenderer::calculate_origin(config, PaddedPos::of_index(grid_size))
    }

    /// Renders every node box, in row-major grid order.
    pub fn render_nodes(config: &RenderConfig, flou: &Flou) -> (r: Vec<SVGElement>)
        requires
            config.valid(),
            flou.wf(),
    {
        let mut out: Vec<SVGElement> = Vec::new();
        let mut k: usize = 0;
        while k < flou.grid.position_to_id.len()
            invariant
                config.valid(),
                flou.wf(),
            decreases flou.grid.position_to_id@.len() - k,
        {
            let pos = flou.grid.position_to_id[k].0;
            proof {
                assert(flou.grid.position_to_id@[k as int].0.spec_in_bounds(flou.grid.size));
            }
            let origin = SvgRenderer::calculate_node_origin(config, pos);
            let viewport = Viewport::new(origin, config.node);
            proof {
                assert(viewport_tight(viewport)) by {
                    assert(0 <= pos.x <= GRID_LIMIT && 0 <= pos.y <= GRID_LIMIT);
                }
            }
            let el = match crate::table::pos_map_get(&flou.node_attributes, pos) {
                Some(attrs) => attrs.render(viewport),
                None => NodeAttributes::render_default(viewport),
            };
            out.push(el);
            k += 1;
        }
        out
    }

    /// The pixel offset from a waypoint's grid origin to the exact point a
    /// polyline passes through, honouring node outlines.
    pub fn get_link_point_offset(
        config: &RenderConfig,
        flou: &Flou,
        point: PaddedPos,
        dir: Direction,
    ) -> (r: PixelPos)
        requires
            config.valid(),
            flou.wf(),
            0 <= point.x <= 2 * GRID_LIMIT + 2,
            0 <= point.y <= 2 * GRID_LIMIT + 2,
        ensures
            -30000000000000000 <= r.x <= 30000000000000000,
            -30000000000000000 <= r.y <= 30000000000000000,
    {
        let half_node_x = ((config.node.x as u64) / 2) as i64;
        let half_node_y = ((config.node.y as u64) / 2) as i64;
        let half_gap_x = ((config.grid_gap.x as u64) / 2) as i64;
        let half_gap_y = ((config.grid_gap.y as u64) / 2) as i64;
        let empty_offset = PixelPos {
            x: if point.grid_x_aligned() {
                half_node_x
            } else {
                half_gap_x
            },
            y: if point.grid_y_aligned() {
                half_node_y
            } else {
                half_gap_y
            },
        };
        if !point.grid_aligned() {
            return empty_offset;
        }
        let cell = point.to_index();
        if !flou.grid.occupied(cell) {
            return empty_offset;
        }
        proof {
            flou.grid.lemma_occupied_in_bounds(cell);
        }
        let origin = SvgRenderer::calculate_node_origin(config, cell);
        let viewport = Viewport::new(origin, config.node);
        match crate::table::pos_map_get(&flou.node_attributes, cell) {
            Some(attrs) => attrs.link_point(viewport, dir),
            None => NodeAttributes::empty().link_point(viewport, dir),
        }
    }

    /// Renders one connection: its polyline, optional text and arrowheads.
    pub fn render_connection(config: &RenderConfig, flou: &Flou, connection: &Connection) -> (r:
        SVGElement)
        requires
            config.valid(),
            flou.wf(),
            connection.from.0.spec_in_bounds(flou.grid.size),
            connection.to.0.spec_in_bounds(flou.grid.size),
    {
        let path = crate::router::get_path(&flou.grid, connection.from, connection.to);
        let mut points: Vec<(PixelPos, Direction)> = Vec::new();
        let mut k: usize = 0;
        while k < path.len()
            invariant
                config.valid(),
                flou.wf(),
                path@.len() >= 2,
                forall|i: int|
                    0 <= i < path@.len() ==> 0 <= (#[trigger] path@[i]).x <= 2 * GRID_LIMIT && 0
                        <= path@[i].y <= 2 * GRID_LIMIT,
                forall|i: int|
                    0 <= i < points@.len() ==> -40000000000000000 <= (#[trigger] points@[
                        i
                    ]).0.x <= 40000000000000000 && -40000000000000000 <= points@[i].0.y
                        <= 40000000000000000,
            decreases path@.len() - k,
        {
            let to = path[k];
            let from = if k == 0 {
                path[1]
            } else {
                path[k - 1]
            };
            let dir = match PaddedPos::straight_line(to, from) {
                Some(d) => d,
                None => Direction::East,
            };
            let offset = SvgRenderer::get_link_point_offset(config, flou, to, dir);
            let base = SvgRenderer::calculate_origin(config, to);
            let point = PixelPos { x: base.x + offset.x, y: base.y + offset.y };
            points.push((point, dir));
            k += 1;
        }
        let mut path_svg = SVGPath::new();
        let mut k2: usize = 0;
        while k2 < points.len()
            invariant
                true,
            decreases points@.len() - k2,
        {
            path_svg = path_svg.line_to(points[k2].0);
            k2 += 1;
        }
        let path_el = path_svg.render().class("path");
        let svg_text = match &connection.attrs.text {
            Some(text) => {
                if points.len() >= 2 {
                    let a = points[0].0;
                    let b = points[1].0;
                    let mid = PixelPos {
                        x: half_trunc(a.x + b.x),
                        y: half_trunc(a.y + b.y),
                    };
                    let rot = points[0].1.rotate_clockwise();
                    let off = PixelPos {
                        x: scale_unit(rot.dx(), 20),
                        y: scale_unit(rot.dy(), 20),
                    };
                    let origin = PixelPos { x: mid.x + off.x, y: mid.y + off.y };
                    Some(SVGText::new(origin).render(text.as_str()).class("connection-text"))
                } else {
                    None
                }
            },
            None => None,
        };
        let mut result = SVGElement::new("g").class("connection").class_opt(
            connection.attrs.class.as_ref(),
        ).child(path_el).child_opt(svg_text);
        let arrowheads = match connection.attrs.arrowheads {
            Some(a) => a,
            None => ArrowheadType::End,
        };
        let draw_start = match arrowheads {
            ArrowheadType::Start | ArrowheadType::Both => true,
            _ => false,
        };
        let draw_end = match arrowheads {
            ArrowheadType::End | ArrowheadType::Both => true,
            _ => false,
        };
        if draw_start && points.len() > 0 {
            let (p0, d0) = points[0];
            if -10000000000000000 <= p0.x && p0.x <= 10000000000000000 && -10000000000000000
                <= p0.y && p0.y <= 10000000000000000 {
                let head = ArrowHead::render(
                    p0,
                    PixelPos { x: 10, y: 10 },
                    d0.reverse(),
                ).class("arrowhead").class("start");
                result = result.child(head);
            }
        }
        if draw_end && points.len() > 0 {
            let (pn, dn) = points[points.len() - 1];
            if -10000000000000000 <= pn.x && pn.x <= 10000000000000000 && -10000000000000000
                <= pn.y && pn.y <= 10000000000000000 {
                let head = ArrowHead::render(
                    pn,
                    PixelPos { x: 10, y: 10 },
                    dn.reverse(),
                ).class("arrowhead").class("end");
                result = result.child(head);
            }
        }
        result
    }

    /// Renders every connection, in resolution order.
    pub fn render_connections(config: &RenderConfig, flou: &Flou) -> (r: Vec<SVGElement>)
        requires
            config.valid(),
            flou.wf(),
    {
        let mut out: Vec<SVGElement> = Vec::new();
        let mut k: usize = 0;
        while k < flou.connections.len()
            invariant
                config.valid(),
                flou.wf(),
            decreases flou.connections@.len() - k,
        {
            proof {
                assert(flou.connections@[k as int].from.0.spec_in_bounds(flou.grid.size)
                    && flou.connections@[k as int].to.0.spec_in_bounds(flou.grid.size));
            }
            let el = SvgRenderer::render_connection(config, flou, &flou.connections[k]);
            out.push(el);
            k += 1;
        }
        out
    }

    /// Renders the whole diagram as one markup document.
    pub fn render(&self, flou: &Flou) -> (r: String)
        requires
            self.config.valid(),
            flou.wf(),
        ensures
            r@.len() > 0,
    {
        let mut styles: Vec<SVGElement> = Vec::new();
        let mut k: usize = 0;
        while k < self.config.css.len()
            invariant
                true,
            decreases self.config.css@.len() - k,
        {
            styles.push(SVGElement::new("style").text(self.config.css[k].as_str()));
            k += 1;
        }
        let size = SvgRenderer::calculate_svg_size(&self.config, flou.grid.size);
        let svg = SVGElement::new("svg").attr(
            "xmlns",
            "http://www.w3.org/2000/svg",
        ).size(size).children(styles);
        let background = SVGElement::new("rect").class("background").pos(
            PixelPos { x: 0, y: 0 },
        ).size(size);
        let nodes = SVGElement::new("g").class("nodes").children(
            SvgRenderer::render_nodes(&self.config, flou),
        );
        let connections = SVGElement::new("g").class("connections").children(
            SvgRenderer::render_connections(&self.config, flou),
        );
        let result = svg.child(background).child(nodes).child(connections);
        result.to_text()
    }
}

} // verus!

verus! {

/// Validates a parsed document and renders it in one step: the library's
/// whole pipeline behind one call.  Succeeds exactly when every validation
/// phase of `Flou::from_document` passes.
pub fn render_document(
    document: crate::ast::Document,
    node_size: Option<(i64, i64)>,
    grid_gap_size: Option<(i64, i64)>,
) -> (r: Result<String, crate::flou::LogicError>)
    requires
        document.grid.spec_fits(),
        node_size matches Some(n) ==> 0 <= n.0 <= 2147483647 && 0 <= n.1 <= 2147483647,
        grid_gap_size matches Some(g) ==> 0 <= g.0 <= 2147483647 && 0 <= g.1 <= 2147483647,
    ensures
        r is Ok <==> (crate::flou::defs_clean(document.definitions.deep_view())
            && crate::flou::grid_clean(crate::flou::cells_of_grid(document.grid@))
            && !crate::flou::labels_dup(crate::flou::cells_of_grid(document.grid@))
            && !crate::flou::dest_errs(
            document.definitions.deep_view(),
            crate::flou::cells_of_grid(document.grid@),
        )),
        r matches Ok(markup) ==> markup@.len() > 0,
{
    match Flou::from_document(document) {
        Ok(flou) => {
            let renderer = SvgRenderer::new(node_size, grid_gap_size);
            Ok(renderer.render(&flou))
        },
        Err(e) => Err(e),
    }
}

} // verus!
