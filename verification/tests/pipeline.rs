use flou::ast::{AttrKind, Direction, Document, Identifier};
use flou::flou::{Flou, LogicError, NodeAttributes};
use flou::grid::ResolutionError;
use flou::parse::parse_document;
use flou::pos::IndexPos;

fn id(s: &str) -> Identifier {
    Identifier(String::from(s))
}

fn pos(x: i64, y: i64) -> IndexPos {
    IndexPos { x, y }
}

fn document(grid: &str, define: Option<&str>) -> Document {
    let input = match define {
        Some(d) => format!("grid {{ {} }} define {{ {} }}", grid, d),
        None => format!("grid {{ {} }}", grid),
    };
    parse_document(&input).expect("the test document should parse")
}

#[test]
fn duplicate_labels() {
    let doc = document("block#foo; question#bar; block#foo; name#cat, block#bar;", None);
    let flou = Flou::from_document(doc);
    assert_eq!(
        flou.unwrap_err(),
        LogicError::DuplicateLabels(vec![
            (id("foo"), vec![pos(0, 0), pos(0, 2)]),
            (id("bar"), vec![pos(0, 1), pos(1, 3)]),
        ])
    );
}

#[test]
fn flou_duplicate_labels() {
    let doc = document("block#foo; question#bar; block#foo; name#cat, block#bar;", None);
    let flou = Flou::from_document(doc);
    assert_eq!(
        flou.unwrap_err(),
        LogicError::DuplicateLabels(vec![
            (id("foo"), vec![pos(0, 0), pos(0, 2)]),
            (id("bar"), vec![pos(0, 1), pos(1, 3)]),
        ])
    );
}

#[test]
fn duplicate_node_attributes_in_definitions() {
    let doc = document(
        "foo; bar;",
        Some(
            r#"
                foo(shape: rect, shape: diamond);
                bar(shape: rect, text: "hello", shape: diamond, connect: n:n@s, text: "hey");
            "#,
        ),
    );
    let flou = Flou::from_document(doc);
    assert_eq!(
        flou.unwrap_err(),
        LogicError::DuplicateNodeAttributesInDefinitions(vec![
            (id("foo"), vec![AttrKind::Shape]),
            (id("bar"), vec![AttrKind::Shape, AttrKind::Text]),
        ])
    );
}

#[test]
fn duplicate_connection_attributes_in_definitions() {
    let doc = document(
        "foo; bar;",
        Some(
            r#"
                foo(connect: n:n@s(text: "hi", text: "hello"));
                bar(connect: {n:n@n(text: "hey", class: "hello"); n:n@e(class: "hi", class: "hello")});
            "#,
        ),
    );
    let flou = Flou::from_document(doc);
    assert_eq!(
        flou.unwrap_err(),
        LogicError::DuplicateConnectionAttributesInDefinitions(vec![
            (id("foo"), vec![(0, vec![AttrKind::Text])]),
            (id("bar"), vec![(1, vec![AttrKind::Class])]),
        ])
    );
}

#[test]
fn duplicate_node_attributes_in_grid() {
    let doc = document(
        r#"
            foo(shape: rect, text: "hi", shape: diamond);
            bar(connect: n:n@s, shape: circle, text: "hello", shape: rect, connect: n:n#end);
        "#,
        None,
    );
    let flou = Flou::from_document(doc);
    assert_eq!(
        flou.unwrap_err(),
        LogicError::DuplicateNodeAttributesInGrid(vec![
            (pos(0, 0), vec![AttrKind::Shape]),
            (pos(0, 1), vec![AttrKind::Shape, AttrKind::Connect]),
        ])
    );
}

#[test]
fn duplicate_connection_attributes_in_grid() {
    let doc = document(
        r#"
            foo(connect: n:n@s(text: "hi", text: "hello"));
            _, bar(connect: {n:n@n(text: "hey", class: "hello"); n:n@e(class: "hi", class: "hello")});
        "#,
        None,
    );
    let flou = Flou::from_document(doc);
    assert_eq!(
        flou.unwrap_err(),
        LogicError::DuplicateConnectionAttributesInGrid(vec![
            (pos(0, 0), vec![(0, vec![AttrKind::Text])]),
            (pos(1, 1), vec![(1, vec![AttrKind::Class])]),
        ])
    );
}

#[test]
fn invalid_destination() {
    let doc = document(
        r#"
            start(connect: n:n@n);
            middle;
            end(connect: {n:n#foo; n:n@e});
        "#,
        Some("middle(connect: {n:n@n; n:n@s});"),
    );
    let flou = Flou::from_document(doc);
    assert_eq!(
        flou.unwrap_err(),
        LogicError::InvalidDestination(vec![
            (pos(0, 0), vec![(0, ResolutionError::InvalidDirection(Direction::North))]),
            (
                pos(0, 2),
                vec![
                    (0, ResolutionError::UnknownLabel(id("foo"))),
                    (1, ResolutionError::InvalidDirection(Direction::East)),
                ]
            ),
        ])
    );
}

#[test]
fn attribute_duplicates_ignore_declaration_order() {
    // The reported duplicate set depends on cardinality only: both
    // orderings of the same attributes blame the same kinds.
    let doc_a = document("n;", Some(r#"n(shape: rect, text: "x", shape: diamond);"#));
    let doc_b = document("n;", Some(r#"n(text: "x", shape: diamond, shape: rect);"#));
    let err_a = Flou::from_document(doc_a).unwrap_err();
    let err_b = Flou::from_document(doc_b).unwrap_err();
    assert_eq!(err_a, err_b);
    assert_eq!(
        err_a,
        LogicError::DuplicateNodeAttributesInDefinitions(vec![(id("n"), vec![AttrKind::Shape])])
    );
}

#[test]
fn merge_precedence_field_level() {
    // The definition sets text "A"; the cell only sets class "B": both
    // fields survive into the merged record.
    let doc = document(r#"a(class: "B");"#, Some(r#"a(text: "A");"#));
    let flou = Flou::from_document(doc).expect("the document should validate");
    assert_eq!(flou.node_attributes.len(), 1);
    assert_eq!(flou.node_attributes[0].0, pos(0, 0));
    let merged = &flou.node_attributes[0].1;
    assert_eq!(merged.text, Some(String::from("A")));
    assert_eq!(merged.class, Some(String::from("B")));

    // When the cell also sets text "C", the cell's field wins.
    let doc = document(r#"a(class: "B", text: "C");"#, Some(r#"a(text: "A");"#));
    let flou = Flou::from_document(doc).expect("the document should validate");
    let merged = &flou.node_attributes[0].1;
    assert_eq!(merged.text, Some(String::from("C")));
    assert_eq!(merged.class, Some(String::from("B")));
}

#[test]
fn connect_lists_replace_wholesale() {
    // A cell that defines any connections replaces the definition's whole
    // list instead of merging element-wise.
    let doc = document(
        "a(connect: e:w@e), b;",
        Some("a(connect: {s:n@s; e:w@e});"),
    );
    let flou = Flou::from_document(doc).expect("the document should validate");
    assert_eq!(flou.connections.len(), 1);
    assert_eq!(flou.connections[0].from, (pos(0, 0), Direction::East));
    assert_eq!(flou.connections[0].to, (pos(1, 0), Direction::West));
}

#[test]
fn unused_definition_is_silently_ignored() {
    let doc = document("a;", Some(r#"ghost(text: "nobody");"#));
    let flou = Flou::from_document(doc).expect("the document should validate");
    assert_eq!(flou.node_attributes.len(), 1);
    assert_eq!(flou.node_attributes[0].1.text, None);
}

#[test]
fn duplicate_definitions_are_collected() {
    let doc = document("a;", Some("a(shape: rect); b(shape: rect); a(shape: circle); b(shape: rect);"));
    let flou = Flou::from_document(doc);
    assert_eq!(
        flou.unwrap_err(),
        LogicError::DuplicateDefinitions(vec![id("a"), id("b")])
    );
}

#[test]
fn label_destination_resolves() {
    let doc = document("a(connect: e:w#target), b#target;", None);
    let flou = Flou::from_document(doc).expect("the document should validate");
    assert_eq!(flou.connections.len(), 1);
    assert_eq!(flou.connections[0].from, (pos(0, 0), Direction::East));
    assert_eq!(flou.connections[0].to, (pos(1, 0), Direction::West));
}

#[test]
fn itself_destination_resolves_to_origin() {
    let doc = document("a(connect: n:n@);", None);
    let flou = Flou::from_document(doc).expect("the document should validate");
    assert_eq!(flou.connections.len(), 1);
    assert_eq!(flou.connections[0].from, (pos(0, 0), Direction::North));
    assert_eq!(flou.connections[0].to, (pos(0, 0), Direction::North));
}

#[test]
fn resolved_connection_attributes_survive() {
    let doc = document(r#"a(connect: e:w@e("hop", class: "wire")), b;"#, None);
    let flou = Flou::from_document(doc).expect("the document should validate");
    assert_eq!(flou.connections.len(), 1);
    assert_eq!(flou.connections[0].attrs.text, Some(String::from("hop")));
    assert_eq!(flou.connections[0].attrs.class, Some(String::from("wire")));
    assert_eq!(flou.connections[0].attrs.arrowheads, None);
}

#[test]
fn node_attribute_defaults_are_empty() {
    let empty = NodeAttributes::empty();
    assert_eq!(empty.text, None);
    assert_eq!(empty.class, None);
    assert_eq!(empty.shape, None);
}
