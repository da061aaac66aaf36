use tydi::phys::{BitField, Complexity, Dir};
use tydi::physical::{PhysicalStream, SignalMap, signal_map_of};
use tydi::river::{River, RiverParameters};

#[test]
fn test_bitfield_recursive_width() {
    let bf = BitField {
        identifier: None,
        width: 0,
        children: vec![
            BitField {
                identifier: None,
                width: 1,
                children: vec![],
            },
            BitField {
                identifier: None,
                width: 0,
                children: vec![
                    BitField {
                        identifier: None,
                        width: 2,
                        children: vec![],
                    },
                    BitField {
                        identifier: None,
                        width: 3,
                        children: vec![],
                    },
                ],
            },
        ],
    };
    assert_eq!(bf.width_recursive(), 6);
}

#[test]
fn bitfield_constructors_and_directions() {
    let e = BitField::new_empty();
    assert_eq!(e.identifier, None);
    assert_eq!(e.width(), 0);
    let b = BitField::new(Some("x".to_string()), 4);
    assert_eq!(b.width(), 4);
    assert_eq!(b.width_recursive(), 4);
    assert_eq!(Dir::Downstream.reversed(), Dir::Upstream);
    let mut d = Dir::Upstream;
    d.reverse();
    assert_eq!(d, Dir::Downstream);
    d.reverse();
    d.reverse();
    assert_eq!(d, Dir::Downstream);
    assert_eq!(Complexity::new_major(4).major(), 4);
    assert!(Complexity::new(vec![]).is_err());
    assert_eq!(Complexity::default(), Complexity::new_major(0));
}

#[test]
fn river_width() {
    assert_eq!(
        River::Bits {
            identifier: None,
            width: 3,
        }
        .width(),
        3
    );
    assert_eq!(
        River::Group {
            identifier: None,
            inner: vec![
                River::Bits {
                    identifier: None,
                    width: 7,
                },
                River::Bits {
                    identifier: None,
                    width: 16,
                }
            ],
        }
        .width(),
        23
    );
    assert_eq!(
        River::Group {
            identifier: None,
            inner: vec![
                River::Bits {
                    identifier: None,
                    width: 3,
                },
                River::Bits {
                    identifier: None,
                    width: 4,
                }
            ],
        }
        .width(),
        7
    );
    assert_eq!(
        River::Union {
            identifier: None,
            inner: vec![
                River::Bits {
                    identifier: None,
                    width: 3,
                },
                River::Bits {
                    identifier: None,
                    width: 4,
                },
                River::Dim {
                    identifier: None,
                    inner: Box::new(River::Bits {
                        identifier: None,
                        width: 10,
                    }),
                    parameters: Default::default(),
                }
            ],
        }
        .width(),
        4
    );
}

#[test]
fn test_river_bitfields() {
    // River of just bits.
    let r = River::Bits {
        identifier: Some("test".to_string()),
        width: 1,
    };
    let bf = r.bit_fields(None);
    assert!(bf.is_some());
    let bfu = bf.unwrap();
    assert_eq!(bfu.identifier, Some("test".to_string()));
    assert_eq!(bfu.width(), 1);
    assert_eq!(bfu.width_recursive(), 1);
}

#[test]
fn test_river_bitfields_group() {
    let r = River::Group {
        identifier: Some("x".to_string()),
        inner: vec![
            River::Bits { identifier: Some("a".to_string()), width: 1 },
            River::Bits { identifier: Some("b".to_string()), width: 2 },
        ],
    };

    let bf = r.bit_fields(None);
    let bfu = &bf.unwrap();

    assert_eq!(bfu.children.len(), 2);
    assert_eq!(bfu.children[0].identifier, Some("a".to_string()));
    assert_eq!(bfu.children[0].width(), 1);
    assert_eq!(bfu.children[0].children.len(), 0);
    assert_eq!(bfu.children[1].identifier, Some("b".to_string()));
    assert_eq!(bfu.children[1].width(), 2);
    assert_eq!(bfu.children[1].children.len(), 0);
    assert_eq!(bfu.width_recursive(), 3);
}

#[test]
fn test_river_bitfields_group_nested() {
    let r = River::Group {
        identifier: Some("x".to_string()),
        inner: vec![
            River::Bits { identifier: Some("a".to_string()), width: 1 },
            River::Group {
                identifier: Some("b".to_string()),
                inner: vec![
                    River::Bits { identifier: Some("c".to_string()), width: 2 },
                    River::Bits { identifier: Some("d".to_string()), width: 3 },
                ],
            },
        ],
    };

    let bf = r.bit_fields(None);
    let bfu = bf.unwrap();

    assert_eq!(bfu.children.len(), 2);
    assert_eq!(bfu.children[0].identifier, Some("a".to_string()));
    assert_eq!(bfu.children[0].width(), 1);
    assert_eq!(bfu.children[0].children.len(), 0);
    assert_eq!(bfu.children[1].identifier, Some("b".to_string()));
    assert_eq!(bfu.children[1].width(), 0);
    assert_eq!(bfu.children[1].children.len(), 2);
    assert_eq!(bfu.children[1].children[0].identifier, Some("c".to_string()));
    assert_eq!(bfu.children[1].children[0].width(), 2);
    assert_eq!(bfu.children[1].children[0].children.len(), 0);
    assert_eq!(bfu.children[1].children[1].identifier, Some("d".to_string()));
    assert_eq!(bfu.children[1].children[1].width(), 3);
    assert_eq!(bfu.children[1].children[1].children.len(), 0);
    assert_eq!(bfu.width_recursive(), 6);
}

#[test]
fn river_identifiers_and_streams() {
    let r = River::Root {
        identifier: Some("root".to_string()),
        inner: Box::new(River::Group {
            identifier: None,
            inner: vec![
                River::Bits { identifier: Some("a".to_string()), width: 3 },
                River::Dim {
                    identifier: Some("d".to_string()),
                    inner: Box::new(River::Bits { identifier: Some("b".to_string()), width: 5 }),
                    parameters: RiverParameters { elements: Some(2), complexity: Some(4), userbits: None },
                },
            ],
        }),
        parameters: RiverParameters::default(),
    };
    assert_eq!(r.identifier(), Some("root".to_string()));
    let streams = r.as_phys(vec!["top".to_string()]);
    assert_eq!(streams.len(), 2);
    assert_eq!(streams[0].dimensionality, 0);
    assert_eq!(streams[0].fields.width_recursive(), 3);
    assert_eq!(streams[1].dimensionality, 1);
    assert_eq!(streams[1].elements_per_transfer, 2);
    assert_eq!(streams[1].complexity, Complexity::new_major(4));
    assert_eq!(streams[1].fields.width_recursive(), 5);
}

#[test]
fn physical_stream() {
    let physical_stream = PhysicalStream::new(
        vec![(Some("a".to_string()), 8), (Some("b".to_string()), 16), (Some("c".to_string()), 1)],
        3,
        4,
        Complexity::new_major(8),
        vec![(Some("user".to_string()), 1)],
    )
    .unwrap();

    let element = physical_stream.element();
    assert_eq!(element[0], (Some("a".to_string()), 8usize));
    assert_eq!(element[1], (Some("b".to_string()), 16usize));
    assert_eq!(element[2], (Some("c".to_string()), 1usize));
    assert_eq!(element.len(), 3);
    assert_eq!(physical_stream.element_lanes(), 3);
    assert_eq!(physical_stream.dimensionality(), 4);
    assert_eq!(physical_stream.complexity(), &Complexity::new_major(8));
    assert_eq!(physical_stream.user()[0], (Some("user".to_string()), 1usize));
    assert_eq!(physical_stream.bit_count(), 87);
    assert_eq!(physical_stream.data_bit_count(), (8 + 16 + 1) * 3);
    assert_eq!(physical_stream.last_bit_count(), 4);
    assert_eq!(physical_stream.stai_bit_count(), 2);
    assert_eq!(physical_stream.endi_bit_count(), 2);
    assert_eq!(physical_stream.strb_bit_count(), 3);
    assert_eq!(physical_stream.user_bit_count(), 1);
    assert_eq!(
        physical_stream.signal_map(),
        SignalMap {
            data: Some(75),
            last: Some(4),
            stai: Some(2),
            endi: Some(2),
            strb: Some(3),
            user: Some(1)
        }
    );

    let physical_stream =
        PhysicalStream::new(vec![(Some("a".to_string()), 8)], 1, 0, Complexity::new_major(0), vec![]).unwrap();

    assert_eq!(physical_stream.element().len(), 1);
    assert_eq!(physical_stream.element_lanes(), 1);
    assert_eq!(physical_stream.dimensionality(), 0);
    assert_eq!(physical_stream.complexity(), &Complexity::new_major(0));
    assert_eq!(physical_stream.user().len(), 0);
    assert_eq!(physical_stream.bit_count(), 8);
    assert_eq!(physical_stream.data_bit_count(), 8);
    assert_eq!(physical_stream.last_bit_count(), 0);
    assert_eq!(physical_stream.stai_bit_count(), 0);
    assert_eq!(physical_stream.endi_bit_count(), 0);
    assert_eq!(physical_stream.strb_bit_count(), 0);
    assert_eq!(physical_stream.user_bit_count(), 0);
    assert_eq!(
        physical_stream.signal_map(),
        SignalMap {
            data: Some(8),
            last: None,
            stai: None,
            endi: None,
            strb: None,
            user: None
        }
    );
}

#[test]
fn signal_map() {
    let physical_stream = PhysicalStream::new(
        vec![(Some("a".to_string()), 3), (Some("b".to_string()), 2)],
        2,
        3,
        Complexity::new_major(8),
        vec![],
    )
    .unwrap();

    let signal_map = signal_map_of(&physical_stream);
    assert_eq!(physical_stream.bit_count(), 17);
    assert_eq!(physical_stream.data_bit_count(), 2 * (3 + 2));
    assert_eq!(physical_stream.last_bit_count(), 3);
    assert_eq!(physical_stream.stai_bit_count(), 1);
    assert_eq!(physical_stream.endi_bit_count(), 1);
    assert_eq!(physical_stream.strb_bit_count(), 2);
    assert_eq!(physical_stream.user_bit_count(), 0);

    assert_eq!(physical_stream.data_bit_count(), signal_map.data().unwrap_or(0));
    assert_eq!(physical_stream.last_bit_count(), signal_map.last().unwrap_or(0));
    assert_eq!(physical_stream.stai_bit_count(), signal_map.stai().unwrap_or(0));
    assert_eq!(physical_stream.endi_bit_count(), signal_map.endi().unwrap_or(0));
    assert_eq!(physical_stream.strb_bit_count(), signal_map.strb().unwrap_or(0));
    assert_eq!(physical_stream.user_bit_count(), signal_map.user().unwrap_or(0));

    assert_eq!(signal_map.opt_bit_count(), Some(17));
    assert_eq!(signal_map.bit_count(), 17);
    assert_eq!(signal_map, physical_stream.signal_map());

    assert_eq!(
        signal_map.to_vec(),
        vec![
            ("data", 10),
            ("last", 3),
            ("stai", 1),
            ("endi", 1),
            ("strb", 2),
            ("user", 0)
        ]
    );
}

#[test]
fn physical_stream_refusals() {
    let e = |v: Vec<(Option<String>, usize)>| PhysicalStream::new(v, 1, 0, Complexity::default(), vec![]);
    assert!(e(vec![(Some("a".to_string()), 0)]).is_err());
    assert!(e(vec![(Some("1a".to_string()), 1)]).is_err());
    assert!(e(vec![(Some("_a".to_string()), 1)]).is_err());
    assert!(e(vec![(Some("a-b".to_string()), 1)]).is_err());
    assert!(e(vec![(Some("a".to_string()), 1), (Some("a".to_string()), 2)]).is_err());
    assert!(PhysicalStream::new(vec![(None, 1)], 0, 0, Complexity::default(), vec![]).is_err());
    let ok = e(vec![(Some("".to_string()), 4)]).unwrap();
    assert_eq!(ok.element(), vec![(None, 4)]);
}

#[test]
fn field_names_repeat_without_regard_to_case() {
    let r = PhysicalStream::new(
        vec![(Some("a".to_string()), 1), (Some("A".to_string()), 2)],
        1,
        0,
        Complexity::new_major(0),
        vec![],
    );
    assert!(r.is_err());
    let r = PhysicalStream::new(
        vec![(Some("a".to_string()), 1), (Some("b".to_string()), 2)],
        1,
        0,
        Complexity::new_major(0),
        vec![(Some("Xy".to_string()), 1), (Some("xY".to_string()), 1)],
    );
    assert!(r.is_err());
}

#[test]
fn bits_bit_field_takes_the_prefix() {
    let r = River::Bits { identifier: Some("a".to_string()), width: 1 };
    let bf = r.bit_fields(Some("p".to_string())).unwrap();
    assert_eq!(bf.identifier, Some("p_a".to_string()));
    assert_eq!(bf.width(), 1);
    let bf = r.bit_fields(None).unwrap();
    assert_eq!(bf.identifier, Some("a".to_string()));
}

#[test]
fn signal_map_data_is_the_data_bit_count() {
    let ps = PhysicalStream::new(
        vec![(Some("a".to_string()), 3), (Some("b".to_string()), 2)],
        2,
        3,
        Complexity::new_major(8),
        vec![],
    )
    .unwrap();
    assert_eq!(ps.data_bit_count(), 10);
    assert_eq!(ps.signal_map().data(), Some(10));
}
