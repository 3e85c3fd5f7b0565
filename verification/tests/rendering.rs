use flou::ast::Direction;
use flou::flou::Flou;
use flou::parse::parse_document;
use flou::pos::{IndexPos, PixelPos};
use flou::render::{RenderConfig, SvgRenderer};
use flou::svg::{escape, ArrowHead, ArrowheadPoints, SVGElement, SVGPath};

fn pix(x: i64, y: i64) -> PixelPos {
    PixelPos { x, y }
}

fn pos(x: i64, y: i64) -> IndexPos {
    IndexPos { x, y }
}

#[test]
fn tag_only() {
    assert_eq!(SVGElement::new("a").to_text(), "<a />");
}

#[test]
fn with_attributes() {
    assert_eq!(
        SVGElement::new("a").attr("foo", "bar").to_text(),
        r#"<a foo="bar" />"#,
    );

    assert_eq!(
        SVGElement::new("a").attr("foo", "bar").attr("bar", "baz").to_text(),
        r#"<a foo="bar" bar="baz" />"#,
    );
}

#[test]
fn with_child() {
    assert_eq!(
        SVGElement::new("div").child(SVGElement::new("foo")).to_text(),
        "<div>\n  <foo />\n</div>",
    );
}

#[test]
fn escape_attributes() {
    assert_eq!(escape("\""), "&quot;");
    assert_eq!(escape("'"), "&apos;");
    assert_eq!(escape("<"), "&lt;");
    assert_eq!(escape(">"), "&gt;");
    assert_eq!(escape("&"), "&amp;");
}

#[test]
fn with_escaped_attribute() {
    assert_eq!(
        SVGElement::new("div").class("'Hi'").to_text(),
        r#"<div class="&apos;Hi&apos;" />"#,
    )
}

#[test]
fn complex_example() {
    assert_eq!(
        SVGElement::new("p")
            .class("block")
            .child(
                SVGElement::new("a")
                    .attr("href", "example.com")
                    .child(SVGElement::new("span").text("Hi"))
                    .text("there")
            )
            .child(SVGElement::new("button").text("Press me"))
            .to_text(),
        r#"
<p class="block">
  <a href="example.com">
    <span>Hi</span>
    there
  </a>
  <button>Press me</button>
</p>
            "#
        .trim(),
    );
}

#[test]
fn create_path() {
    let mut path = SVGPath::new().line_to(pix(10, 20));
    assert_eq!(path.get_d(), "M 10 20");

    path = path.line_to(pix(30, 40));
    assert_eq!(path.get_d(), "M 10 20 L 30 40");

    path = path.end();
    assert_eq!(path.get_d(), "M 10 20 L 30 40 Z");
}

#[test]
fn points_are_correct() {
    let actual = ArrowHead::get_points(pix(100, 100), pix(20, 40), Direction::North);
    assert_eq!(
        actual,
        ArrowheadPoints {
            tip: pix(100, 100),
            center: pix(100, 120),
            left_corner: pix(90, 140),
            right_corner: pix(110, 140),
        }
    );

    let actual = ArrowHead::get_points(pix(200, 200), pix(20, 40), Direction::East);
    assert_eq!(
        actual,
        ArrowheadPoints {
            tip: pix(200, 200),
            center: pix(180, 200),
            left_corner: pix(160, 190),
            right_corner: pix(160, 210),
        }
    )
}

#[test]
fn calculates_origin_without_grid_gap() {
    let config = RenderConfig { node: pix(50, 100), grid_gap: pix(0, 0), ..Default::default() };

    let actual = SvgRenderer::calculate_node_origin(&config, pos(0, 0));
    assert_eq!(actual, pix(0, 0));

    let actual = SvgRenderer::calculate_node_origin(&config, pos(2, 0));
    assert_eq!(actual, pix(100, 0));

    let actual = SvgRenderer::calculate_node_origin(&config, pos(1, 3));
    assert_eq!(actual, pix(50, 300));
}

#[test]
fn calculates_origin_with_grid_gap() {
    let config = RenderConfig { node: pix(50, 100), grid_gap: pix(10, 20), ..Default::default() };

    let actual = SvgRenderer::calculate_node_origin(&config, pos(0, 0));
    assert_eq!(actual, pix(10, 20));

    let actual = SvgRenderer::calculate_node_origin(&config, pos(2, 0));
    assert_eq!(actual, pix(130, 20));

    let actual = SvgRenderer::calculate_node_origin(&config, pos(1, 3));
    assert_eq!(actual, pix(70, 380));
}

#[test]
fn renders_a_whole_diagram() {
    let doc = parse_document(
        r#"grid { a("start", shape: diamond, connect: e:w@e), b("end"); }"#,
    )
    .expect("the diagram should parse");
    let flou = Flou::from_document(doc).expect("the diagram should validate");
    let renderer = SvgRenderer::new(None, None);
    let markup = renderer.render(&flou);
    assert!(markup.starts_with("<svg"));
    assert!(markup.contains("class=\"diamond node\""));
    assert!(markup.contains("class=\"connection\""));
    assert!(markup.contains("start"));
    assert!(markup.contains("arrowhead end"));
}

#[test]
fn render_document_runs_the_whole_pipeline() {
    let doc = parse_document("grid { a(connect: e:w@e), b; }").unwrap();
    let markup = flou::render::render_document(doc, Some((50, 100)), Some((10, 20)))
        .expect("a clean document should render");
    assert!(markup.starts_with("<svg"));

    let bad = parse_document("grid { a#x; b#x; }").unwrap();
    assert!(flou::render::render_document(bad, None, None).is_err());
}
