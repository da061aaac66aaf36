use tydi::data::{bits, dim, group, new, rev, river_type, root, streamlet_interface_definition, union, Streamlet};
use tydi::river::{River, RiverParameters};

fn b(width: usize) -> River {
    River::Bits { identifier: None, width }
}

fn params(e: usize, c: usize, u: usize) -> RiverParameters {
    RiverParameters { elements: Some(e), complexity: Some(c), userbits: Some(u) }
}

#[test]
fn logical_parse_bits() {
    assert_eq!(bits("Bits<8>"), Ok(("", b(8))));
    assert!(bits("Bits<>").is_err());
    assert!(bits("bits<8>").is_err());
}

#[test]
fn parse_root() {
    assert_eq!(
        root("Root<Bits<8>, 1, 2, 3>"),
        Ok(("", River::Root { identifier: None, inner: Box::new(b(8)), parameters: params(1, 2, 3) }))
    );
    assert_eq!(
        root("Root<Bits<8>>"),
        Ok(("", River::Root { identifier: None, inner: Box::new(b(8)), parameters: RiverParameters::default() }))
    );
}

#[test]
fn logical_parse_group() {
    assert_eq!(group("Group<Bits<4>, Bits<8>>"), Ok(("", River::Group { identifier: None, inner: vec![b(4), b(8)] })));
}

#[test]
fn parse_dim() {
    assert_eq!(
        dim("Dim<Bits<8>, 1, 2, 3>"),
        Ok(("", River::Dim { identifier: None, inner: Box::new(b(8)), parameters: params(1, 2, 3) }))
    );
}

#[test]
fn parse_new() {
    assert_eq!(
        new("New<Bits<7>, 3, 2, 1>"),
        Ok(("", River::New { identifier: None, inner: Box::new(b(7)), parameters: params(3, 2, 1) }))
    );
}

#[test]
fn parse_rev() {
    assert_eq!(
        rev("Rev<Bits<8>, 11, 22, 33>"),
        Ok(("", River::Rev { identifier: None, inner: Box::new(b(8)), parameters: params(11, 22, 33) }))
    );
}

#[test]
fn logical_parse_union() {
    assert_eq!(union("Union<Bits<8>, Bits<4>>"), Ok(("", River::Union { identifier: None, inner: vec![b(8), b(4)] })));
}

#[test]
fn parse_river_type() {
    assert_eq!(river_type("Bits<8>"), Ok(("", b(8))));
}

#[test]
fn river_types_nested_labelled_and_partial() {
    assert_eq!(
        river_type("x: Root<g: Group<Bits<1>, Dim<Bits<2>, 4>>> tail"),
        Ok((
            "tail",
            River::Root {
                identifier: Some("x".to_string()),
                inner: Box::new(River::Group {
                    identifier: Some("g".to_string()),
                    inner: vec![
                        b(1),
                        River::Dim {
                            identifier: None,
                            inner: Box::new(b(2)),
                            parameters: RiverParameters { elements: Some(4), complexity: None, userbits: None },
                        },
                    ],
                }),
                parameters: RiverParameters::default(),
            }
        ))
    );
    assert_eq!(
        root("Root<Bits<8>, x>"),
        Err(tydi::scan::ParseError)
    );
    assert!(river_type("Group<>").is_err());
    assert!(river_type("Stream<Bits<1>>").is_err());
}

#[test]
fn parse_streamlet_interface_definition() {
    assert_eq!(
        streamlet_interface_definition(
            "MuhStreamlet\n\na: Bits<1>\nb: Bits<2>\n\nc: Group<Bits<3>, Bits<4>>\nd: Bits<4>"
        )
        .unwrap(),
        (
            "",
            Streamlet {
                identifier: "MuhStreamlet".to_string(),
                inputs: vec![
                    River::Bits { identifier: Some("a".to_string()), width: 1 },
                    River::Bits { identifier: Some("b".to_string()), width: 2 }
                ],
                outputs: vec![
                    River::Group { identifier: Some("c".to_string()), inner: vec![b(3), b(4)] },
                    River::Bits { identifier: Some("d".to_string()), width: 4 }
                ],
            }
        )
    );
}

#[test]
fn streamlet_definition_refusals() {
    assert!(streamlet_interface_definition("S\nBits<1>").is_err());
    assert!(streamlet_interface_definition("S Bits<1>\n\nBits<2>").is_err());
    assert!(streamlet_interface_definition("\nBits<1>\n\nBits<2>").is_err());
    assert_eq!(
        streamlet_interface_definition("S\nBits<1>\nBits<2>\n\n\nBits<3>\nrest"),
        Ok((
            "\nrest",
            Streamlet { identifier: "S".to_string(), inputs: vec![b(1), b(2)], outputs: vec![b(3)] }
        ))
    );
}
