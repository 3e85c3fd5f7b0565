use flou::ast::{
    ArrowheadType, ConnectionAttribute, ConnectionDescriptor, Destination, Direction, Grid,
    Identifier, Node, NodeAttribute, NodeShape,
};
use flou::parse::{
    parse_connection_attribute, parse_connection_descriptor, parse_definitions, parse_destination,
    parse_direction, parse_grid, parse_identifier, parse_node, parse_node_attribute,
    parse_node_shape, parse_quoted_string,
};

fn id(s: &str) -> Identifier {
    Identifier(String::from(s))
}

fn chars(s: &str) -> usize {
    s.chars().count()
}

#[test]
fn valid_identifier() {
    for s in ["foo", "bar21foo", "_example", "text_14"] {
        let (j, got) = parse_identifier(s, 0).expect("identifier should parse");
        assert_eq!(j, chars(s), "identifier should consume all of {:?}", s);
        assert_eq!(got, id(s));
    }
}

#[test]
fn invalid_identifier() {
    assert!(parse_identifier("", 0).is_none());
    assert!(parse_identifier("12number_first", 0).is_none());
}

#[test]
fn valid_node_shape() {
    let cases = [
        ("rect", NodeShape::Rectangle),
        ("square", NodeShape::Square),
        ("ellipse", NodeShape::Ellipse),
        ("circle", NodeShape::Circle),
        ("diamond", NodeShape::Diamond),
        ("angled_square", NodeShape::AngledSquare),
    ];
    for (s, expected) in cases {
        let (j, got) = parse_node_shape(s, 0).expect("shape should parse");
        assert_eq!(j, chars(s));
        assert_eq!(got, expected);
    }
}

#[test]
fn valid_direction() {
    let cases = [
        ("n", Direction::North),
        ("s", Direction::South),
        ("w", Direction::West),
        ("e", Direction::East),
    ];
    for (s, expected) in cases {
        let (j, got) = parse_direction(s, 0).expect("direction should parse");
        assert_eq!(j, chars(s));
        assert_eq!(got, expected);
    }
}

#[test]
fn valid_destination() {
    let cases = [
        ("@n", Destination::Relative(Direction::North)),
        ("@s", Destination::Relative(Direction::South)),
        ("@w", Destination::Relative(Direction::West)),
        ("@e", Destination::Relative(Direction::East)),
        ("#foo", Destination::Label(id("foo"))),
        ("@", Destination::Itself),
    ];
    for (s, expected) in cases {
        let (j, got) = parse_destination(s, 0).expect("destination should parse");
        assert_eq!(j, chars(s));
        assert_eq!(got, expected);
    }
}

#[test]
fn valid_node_attribute() {
    let (j, got) = parse_node_attribute(r#"text: "foo""#, 0).unwrap();
    assert_eq!(j, chars(r#"text: "foo""#));
    assert_eq!(got, NodeAttribute::Text(String::from("foo")));

    let (j, got) = parse_node_attribute(r#"class: "class name here""#, 0).unwrap();
    assert_eq!(j, chars(r#"class: "class name here""#));
    assert_eq!(got, NodeAttribute::Class(String::from("class name here")));

    let (j, got) = parse_node_attribute("shape: diamond", 0).unwrap();
    assert_eq!(j, chars("shape: diamond"));
    assert_eq!(got, NodeAttribute::Shape(NodeShape::Diamond));
}

#[test]
fn valid_connection_attribute() {
    let (j, got) = parse_connection_attribute(r#"text: "foo""#, 0).unwrap();
    assert_eq!(j, chars(r#"text: "foo""#));
    assert_eq!(got, ConnectionAttribute::Text(String::from("foo")));

    let (j, got) = parse_connection_attribute(r#"class: "class name here""#, 0).unwrap();
    assert_eq!(j, chars(r#"class: "class name here""#));
    assert_eq!(got, ConnectionAttribute::Class(String::from("class name here")));

    let (j, got) = parse_connection_attribute("arrowheads: none", 0).unwrap();
    assert_eq!(j, chars("arrowheads: none"));
    assert_eq!(got, ConnectionAttribute::Arrowheads(ArrowheadType::Neither));
}

#[test]
fn valid_connection_descriptor() {
    let input = r#"n:s@s("foo", class: "bar")"#;
    let (j, got) = parse_connection_descriptor(input, 0).unwrap();
    assert_eq!(j, chars(input));
    assert_eq!(
        got,
        ConnectionDescriptor {
            to: Destination::Relative(Direction::South),
            sides: (Direction::North, Direction::South),
            attrs: vec![
                ConnectionAttribute::Text(String::from("foo")),
                ConnectionAttribute::Class(String::from("bar")),
            ],
        }
    );

    let (j, got) = parse_connection_descriptor("w:e@s", 0).unwrap();
    assert_eq!(j, chars("w:e@s"));
    assert_eq!(
        got,
        ConnectionDescriptor {
            to: Destination::Relative(Direction::South),
            sides: (Direction::West, Direction::East),
            attrs: vec![],
        }
    );

    let (j, got) = parse_connection_descriptor("n:e@s", 0).unwrap();
    assert_eq!(j, chars("n:e@s"));
    assert_eq!(
        got,
        ConnectionDescriptor {
            to: Destination::Relative(Direction::South),
            sides: (Direction::North, Direction::East),
            attrs: vec![],
        }
    );
}

#[test]
fn valid_node_connect_attribute() {
    let (j, got) = parse_node_attribute("connect: n:e@n", 0).unwrap();
    assert_eq!(j, chars("connect: n:e@n"));
    assert_eq!(
        got,
        NodeAttribute::Connect(vec![ConnectionDescriptor {
            to: Destination::Relative(Direction::North),
            sides: (Direction::North, Direction::East),
            attrs: vec![],
        }])
    );

    let (j, got) = parse_node_attribute("connect: {n:n@e; n:n#foo}", 0).unwrap();
    assert_eq!(j, chars("connect: {n:n@e; n:n#foo}"));
    assert_eq!(
        got,
        NodeAttribute::Connect(vec![
            ConnectionDescriptor {
                to: Destination::Relative(Direction::East),
                sides: (Direction::North, Direction::North),
                attrs: vec![],
            },
            ConnectionDescriptor {
                to: Destination::Label(id("foo")),
                sides: (Direction::North, Direction::North),
                attrs: vec![],
            },
        ])
    );
}

#[test]
fn valid_node() {
    let (j, got) = parse_node("foo", 0).unwrap();
    assert_eq!(j, chars("foo"));
    assert_eq!(got, Node { id: id("foo"), label: None, attrs: vec![] });

    let (j, got) = parse_node("foo#bar(shape: rect)", 0).unwrap();
    assert_eq!(j, chars("foo#bar(shape: rect)"));
    assert_eq!(
        got,
        Node {
            id: id("foo"),
            label: Some(id("bar")),
            attrs: vec![NodeAttribute::Shape(NodeShape::Rectangle)],
        }
    );

    let (j, got) = parse_node(r#"foo("hello",)"#, 0).unwrap();
    assert_eq!(j, chars(r#"foo("hello",)"#));
    assert_eq!(
        got,
        Node {
            id: id("foo"),
            label: None,
            attrs: vec![NodeAttribute::Text(String::from("hello"))],
        }
    );

    let (j, got) = parse_node(r#"foo("hey", shape: diamond,)"#, 0).unwrap();
    assert_eq!(j, chars(r#"foo("hey", shape: diamond,)"#));
    assert_eq!(
        got,
        Node {
            id: id("foo"),
            label: None,
            attrs: vec![
                NodeAttribute::Text(String::from("hey")),
                NodeAttribute::Shape(NodeShape::Diamond),
            ],
        }
    );

    let (j, got) = parse_node("foo#bar(shape: rect)", 0).unwrap();
    assert_eq!(j, chars("foo#bar(shape: rect)"));
    assert_eq!(
        got,
        Node {
            id: id("foo"),
            label: Some(id("bar")),
            attrs: vec![NodeAttribute::Shape(NodeShape::Rectangle)],
        }
    );
}

#[test]
fn invalid_node() {
    assert!(parse_node("", 0).is_none());
    assert!(parse_node("(shape: rect)", 0).is_none());
    assert!(parse_node("#bar", 0).is_none());
    assert!(parse_node("#bar(shape: rect)", 0).is_none());
    // The node itself stops before "()", so the whole input is not consumed.
    let (j, _) = parse_node("foo()", 0).unwrap();
    assert_ne!(j, chars("foo()"));
}

#[test]
fn valid_grid() {
    let input = r#"
            grid {
                foo#main, bar;
                baz, _;
                _;
            }
        "#
    .trim();

    let foo_node = Node { id: id("foo"), label: Some(id("main")), attrs: vec![] };
    let bar_node = Node { id: id("bar"), label: None, attrs: vec![] };
    let baz_node = Node { id: id("baz"), label: None, attrs: vec![] };

    let (j, got) = parse_grid(input, 0).expect("grid should parse");
    assert_eq!(j, chars(input));
    assert_eq!(
        got,
        Grid(vec![
            vec![Some(foo_node), Some(bar_node)],
            vec![Some(baz_node), None],
            vec![None],
        ])
    );
}

#[test]
fn invalid_grid() {
    assert!(parse_grid("grid {}", 0).is_none());
    assert!(parse_grid("grid { missing_terminator }", 0).is_none());
    assert!(parse_grid("grid { missing separator; }", 0).is_none());
    assert!(parse_grid("grid { foo; ; }", 0).is_none());
}

#[test]
fn valid_definitions() {
    let input = r#"
            define {
                foo(shape: rect);
                bar(text: "hello");
            }
        "#
    .trim();

    let (j, got) = parse_definitions(input, 0).expect("definitions should parse");
    assert_eq!(j, chars(input));
    assert_eq!(
        got,
        vec![
            (id("foo"), vec![NodeAttribute::Shape(NodeShape::Rectangle)]),
            (id("bar"), vec![NodeAttribute::Text(String::from("hello"))]),
        ]
    );
}

#[test]
fn invalid_definitions() {
    assert!(parse_definitions("define {}", 0).is_none());
    assert!(parse_definitions("define { no_attrs; }", 0).is_none());
    assert!(parse_definitions("define { no_terminator(shape: rect) }", 0).is_none());
    assert!(parse_definitions("define { ; }", 0).is_none());
}

#[test]
fn valid_quoted_string() {
    let (j, got) = parse_quoted_string(r#""example""#, 0).unwrap();
    assert_eq!(j, chars(r#""example""#));
    assert_eq!(got, String::from("example"));
}

#[test]
fn quoted_string_escapes_characters() {
    let input = r#""I said \"hello\".\n""#;
    let (j, got) = parse_quoted_string(input, 0).unwrap();
    assert_eq!(j, chars(input));
    assert_eq!(got, String::from("I said \"hello\".\n"));
}

#[test]
fn invalid_quoted_string() {
    assert!(parse_quoted_string(r#""missing end quote"#, 0).is_none());
    assert!(parse_quoted_string(r#"missing start quote""#, 0).is_none());
    assert!(parse_quoted_string("missing both quotes", 0).is_none());
}

#[test]
fn comments_are_layout() {
    let input = "grid { // the first row\n  a, b;\n}";
    let doc = flou::parse::parse_document(input).expect("a commented grid should parse");
    assert_eq!(doc.grid.0.len(), 1);
    assert_eq!(doc.grid.0[0].len(), 2);
}

#[test]
fn define_block_may_come_first() {
    let input = "define { a(shape: rect); } grid { a; }";
    let doc = flou::parse::parse_document(input).expect("either block order should parse");
    assert_eq!(doc.definitions.len(), 1);
    assert_eq!(doc.grid.0.len(), 1);
}

#[test]
fn trailing_input_is_refused() {
    let input = "grid { a; } stray";
    assert!(flou::parse::parse_document(input).is_err());
}
