use flou::ast::{AttrKind, Direction, Identifier};
use flou::flou::{FlouError, LogicError};
use flou::grid::ResolutionError;
use flou::parse::ParseError;
use flou::pos::IndexPos;
use flou::report::{
    flou_error_to_string, logic_error_to_string, parse_size, pos_text, print_map,
    print_resolution_error, print_sequence, quote, Opt,
};
use flou::svg::i64_text;

fn id(s: &str) -> Identifier {
    Identifier(String::from(s))
}

fn pos(x: i64, y: i64) -> IndexPos {
    IndexPos { x, y }
}

#[test]
fn parse_size_accepts_a_pair() {
    assert_eq!(parse_size("10,20"), Ok((10, 20)));
    assert_eq!(parse_size("0,0"), Ok((0, 0)));
    assert_eq!(parse_size("2147483647,1"), Ok((2147483647, 1)));
}

#[test]
fn parse_size_rejects_malformed_input() {
    assert_eq!(parse_size("10"), Err("Size should have format: \"x,y\""));
    assert_eq!(parse_size("1,2,3"), Err("Size should have format: \"x,y\""));
    assert_eq!(parse_size("a,5"), Err("Could not parse X coordinate"));
    assert_eq!(parse_size("5,b"), Err("Could not parse Y coordinate"));
    assert_eq!(parse_size("2147483648,1"), Err("Could not parse X coordinate"));
    assert_eq!(parse_size("-1,5"), Err("X and Y cannot be negative."));
}

#[test]
fn numbers_render_in_decimal() {
    assert_eq!(i64_text(0), "0");
    assert_eq!(i64_text(42), "42");
    assert_eq!(i64_text(-17), "-17");
    assert_eq!(i64_text(1000000), "1000000");
}

#[test]
fn positions_render_as_pairs() {
    assert_eq!(pos_text(pos(0, 0)), "(0, 0)");
    assert_eq!(pos_text(pos(1, 3)), "(1, 3)");
}

#[test]
fn quoting_and_joining() {
    assert_eq!(quote("hi"), "\"hi\"");
    let items = vec![String::from("a"), String::from("b")];
    assert_eq!(print_sequence(&items, ", ", "<", ">"), "<a>, <b>");
    let entries = vec![(String::from("k"), String::from("v"))];
    assert_eq!(print_map(&entries, "\n", "  - ", ": "), "  - k: v");
}

#[test]
fn resolution_errors_render() {
    assert_eq!(
        print_resolution_error(&ResolutionError::InvalidDirection(Direction::North)),
        "No destination found in direction: North",
    );
    assert_eq!(
        print_resolution_error(&ResolutionError::UnknownLabel(id("foo"))),
        "No destination with label: \"foo\"",
    );
}

#[test]
fn logic_errors_render_every_offender() {
    let err = LogicError::DuplicateLabels(vec![
        (id("foo"), vec![pos(0, 0), pos(0, 2)]),
        (id("bar"), vec![pos(0, 1), pos(1, 3)]),
    ]);
    let text = logic_error_to_string(&err);
    assert_eq!(
        text,
        "Some labels are used more than once:\n\n  - \"foo\" at: (0, 0), (0, 2)\n  - \"bar\" at: (0, 1), (1, 3)",
    );

    let err = LogicError::DuplicateDefinitions(vec![id("a"), id("b")]);
    assert_eq!(
        logic_error_to_string(&err),
        "Some identifiers have multiple definitions:\n\n  - \"a\"\n  - \"b\"",
    );

    let err = LogicError::DuplicateNodeAttributesInDefinitions(vec![
        (id("foo"), vec![AttrKind::Shape, AttrKind::Text]),
    ]);
    assert_eq!(
        logic_error_to_string(&err),
        "Some node definitions have duplicate attributes:\n\n  - \"foo\" has duplicate(s): \"shape\", \"text\"",
    );

    let err = LogicError::DuplicateNodeAttributesInGrid(vec![(pos(0, 1), vec![AttrKind::Connect])]);
    assert_eq!(
        logic_error_to_string(&err),
        "Some nodes declared in the grid have duplicate attributes:\n\n  - Node at (0, 1) has duplicate(s): \"connect\"",
    );

    let err = LogicError::DuplicateConnectionAttributesInDefinitions(vec![
        (id("foo"), vec![(0, vec![AttrKind::Text])]),
    ]);
    assert_eq!(
        logic_error_to_string(&err),
        "Some connections in node definitions have duplicate attributes:\n\n  - At definition \"foo\":\n    - At index 0: \"text\"",
    );

    let err = LogicError::DuplicateConnectionAttributesInGrid(vec![
        (pos(1, 1), vec![(1, vec![AttrKind::Class])]),
    ]);
    assert_eq!(
        logic_error_to_string(&err),
        "Some connections declared in the grid have duplicate attributes:\n\n  - At grid position (1, 1):\n    - For connection at index 1: \"class\"",
    );

    let err = LogicError::InvalidDestination(vec![
        (pos(0, 0), vec![(0, ResolutionError::InvalidDirection(Direction::North))]),
    ]);
    assert_eq!(
        logic_error_to_string(&err),
        "Could not resolve destination for some node's connections:\n\n  - For node at grid position (0, 0):\n    - For connection at index 0: No destination found in direction: North",
    );
}

#[test]
fn flou_errors_render_both_kinds() {
    let text = flou_error_to_string(&FlouError::Parse(ParseError { at: 7 }));
    assert_eq!(text, "Error parsing Flou:\n\nsyntax error at character 7");
    let text = flou_error_to_string(&FlouError::Logic(LogicError::DuplicateDefinitions(vec![
        id("a"),
    ])));
    assert!(text.starts_with("Error in Flou logic:\n"));
    assert!(text.contains("\"a\""));
}

#[test]
fn options_carry_plain_values() {
    let opt = Opt {
        input: String::from("-"),
        output: None,
        node_size: Some((50, 100)),
        grid_gap_size: None,
    };
    assert_eq!(opt.input, "-");
    assert_eq!(opt.node_size, Some((50, 100)));
}
