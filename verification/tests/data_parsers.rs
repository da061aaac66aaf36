use tydi::data::{data_type, empty, prim, river_parameters, struct_type, tuple, variant, Data};
use tydi::river::RiverParameters;

#[test]
fn parse_empty() {
    assert_eq!(empty("Empty"), Ok(("", Data::Empty)));
}

#[test]
fn parse_prim() {
    assert_eq!(
        prim("Prim<8>"),
        Ok((
            "",
            Data::Prim {
                identifier: None,
                width: 8
            }
        ))
    );
    assert!(prim("Prim<>").is_err());
    assert!(prim("prim<8>").is_err());
    assert_eq!(
        prim("a: Prim<3>"),
        Ok((
            "",
            Data::Prim {
                identifier: Some("a".to_string()),
                width: 3
            }
        ))
    );
}

#[test]
fn parse_struct() {
    assert_eq!(
        struct_type("Struct<Prim<3>>"),
        Ok((
            "",
            Data::Struct {
                identifier: None,
                children: vec![Data::Prim {
                    identifier: None,
                    width: 3
                }]
            }
        ))
    );
    assert_eq!(
        struct_type("Struct<Struct<Prim<3>>>"),
        Ok((
            "",
            Data::Struct {
                identifier: None,
                children: vec![Data::Struct {
                    identifier: None,
                    children: vec![Data::Prim {
                        identifier: None,
                        width: 3
                    }]
                }]
            }
        ))
    );
    assert_eq!(
        struct_type("Struct<Struct<Prim<3>,Prim<8>>>"),
        Ok((
            "",
            Data::Struct {
                identifier: None,
                children: vec![Data::Struct {
                    identifier: None,
                    children: vec![
                        Data::Prim {
                            identifier: None,
                            width: 3
                        },
                        Data::Prim {
                            identifier: None,
                            width: 8
                        }
                    ]
                }]
            }
        ))
    );
    assert_eq!(
        struct_type("Struct<Struct<Prim<3>,Prim<8>>>"),
        struct_type("Struct<Struct<Prim<3>, Prim<8>>>"),
    );
    assert_eq!(
        struct_type("a: Struct<b:Prim<3>>"),
        Ok((
            "",
            Data::Struct {
                identifier: Some("a".to_string()),
                children: vec![Data::Prim {
                    identifier: Some("b".to_string()),
                    width: 3
                }]
            }
        ))
    );
    assert_eq!(
        struct_type("a: Struct<b:Prim<3>>"),
        struct_type("a:Struct<b:   Prim<3>>")
    );
}

#[test]
fn parse_tuple() {
    assert_eq!(
        tuple("Tuple<Prim<8>,4>"),
        Ok((
            "",
            Data::Tuple {
                identifier: None,
                child: Box::new(Data::Prim {
                    identifier: None,
                    width: 8
                }),
                width: 4
            }
        ))
    );
    assert_eq!(
        tuple("c: Tuple<c: Prim<8>,4>"),
        Ok((
            "",
            Data::Tuple {
                identifier: Some("c".to_string()),
                child: Box::new(Data::Prim {
                    identifier: Some("c".to_string()),
                    width: 8
                }),
                width: 4
            }
        ))
    );
}

#[test]
fn parse_seq() {
    assert_eq!(
        tydi::data::seq("Seq<Tuple<a: Prim<8>,4>>"),
        Ok((
            "",
            Data::Sequence {
                identifier: None,
                child: Box::new(Data::Tuple {
                    identifier: None,
                    child: Box::new(Data::Prim {
                        identifier: Some("a".to_string()),
                        width: 8
                    }),
                    width: 4
                })
            }
        ))
    );
}

#[test]
fn parse_variant() {
    assert_eq!(
        variant("Variant<Prim<8>, Seq<Tuple<byte: Prim<8>,4>>>"),
        Ok((
            "",
            Data::Variant {
                identifier: None,
                children: vec![
                    Data::Prim {
                        identifier: None,
                        width: 8
                    },
                    Data::Sequence {
                        identifier: None,
                        child: Box::new(Data::Tuple {
                            identifier: None,
                            child: Box::new(Data::Prim {
                                identifier: Some("byte".to_string()),
                                width: 8
                            }),
                            width: 4
                        })
                    }
                ]
            }
        ))
    );
}

#[test]
fn parse_data_type() {
    assert_eq!(
        data_type("Prim<8>"),
        Ok((
            "",
            Data::Prim {
                identifier: None,
                width: 8
            }
        ))
    );
    assert_eq!(
        data_type("Struct<Prim<4>, Prim<4>>"),
        Ok((
            "",
            Data::Struct {
                identifier: None,
                children: vec![
                    Data::Prim {
                        identifier: None,
                        width: 4
                    },
                    Data::Prim {
                        identifier: None,
                        width: 4
                    }
                ]
            }
        ))
    );
    assert_eq!(
        data_type("Tuple<Prim<8>, 4>"),
        Ok((
            "",
            Data::Tuple {
                identifier: None,
                child: Box::new(Data::Prim {
                    identifier: None,
                    width: 8
                }),
                width: 4
            }
        ))
    );
    assert_eq!(
        data_type("Seq<Prim<4>>"),
        Ok((
            "",
            Data::Sequence {
                identifier: None,
                child: Box::new(Data::Prim {
                    identifier: None,
                    width: 4
                })
            }
        ))
    );
    assert_eq!(
        data_type("Variant<Prim<4>,Prim<4>>"),
        Ok((
            "",
            Data::Variant {
                identifier: None,
                children: vec![
                    Data::Prim {
                        identifier: None,
                        width: 4
                    },
                    Data::Prim {
                        identifier: None,
                        width: 4
                    }
                ]
            }
        ))
    );
}

#[test]
fn parse_river_parameters() {
    assert_eq!(
        river_parameters("3, 4, 5"),
        Ok((
            "",
            RiverParameters {
                elements: Some(3),
                complexity: Some(4),
                userbits: Some(5),
            }
        ))
    );
    assert!(river_parameters("").is_err());
    assert_eq!(
        river_parameters("1"),
        Ok((
            "",
            RiverParameters {
                elements: Some(1),
                complexity: None,
                userbits: None,
            }
        ))
    );
    assert_eq!(
        river_parameters("1,2"),
        Ok((
            "",
            RiverParameters {
                elements: Some(1),
                complexity: Some(2),
                userbits: None,
            }
        ))
    );
    assert_eq!(river_parameters("1,2"), river_parameters("1,2,"));
    assert_eq!(
        river_parameters("1,,3"),
        Ok((
            "",
            RiverParameters {
                elements: Some(1),
                complexity: None,
                userbits: Some(3),
            }
        ))
    );
}

#[test]
fn data_rest_and_refusals() {
    assert_eq!(
        prim("Prim<8> tail"),
        Ok((
            "tail",
            Data::Prim {
                identifier: None,
                width: 8
            }
        ))
    );
    assert!(prim("Prim<99999999999999999999999>").is_err());
    assert!(struct_type("Struct<>").is_err());
    assert!(data_type("Bits<3>").is_err());
    assert!(tuple("Tuple<Prim<8>>").is_err());
}
