use tydi::error::Error;
use tydi::hdl::{Component, Field, Identify, Mode, Package, Port, Record, Type};
use tydi::vhdl::{AbstractionLevel, Analyze, Declare, DeclareLibrary, DeclareType, Split, VHDLIdentifier};

fn bv(w: usize) -> Type {
    Type::bitvec(w)
}

fn rec(name: &str) -> Type {
    Type::record(name, vec![Field::new("c", bv(42), false), Field::new("d", bv(1337), false)])
}

fn rec_rev(name: &str) -> Type {
    Type::record(name, vec![Field::new("c", bv(42), false), Field::new("d", bv(1337), true)])
}

fn rec_nested(name: &str) -> Type {
    Type::record(
        name,
        vec![
            Field::new("a", rec(&format!("{}_a", name)), false),
            Field::new("b", rec(&format!("{}_b", name)), false),
        ],
    )
}

fn rec_rev_nested(name: &str) -> Type {
    Type::record(
        name,
        vec![
            Field::new("a", rec(&format!("{}_a", name)), false),
            Field::new("b", rec_rev(&format!("{}_b", name)), false),
        ],
    )
}

fn test_rec() -> Type {
    Type::record("rec", vec![Field::new("c", Type::Bit, false), Field::new("d", bv(4), true)])
}

fn test_rec_nested() -> Type {
    Type::record("rec_nested", vec![Field::new("a", Type::Bit, false), Field::new("b", test_rec(), false)])
}

fn test_comp() -> Component {
    Component::new(
        "test_comp",
        vec![],
        vec![Port::new("a", Mode::In, test_rec()), Port::new("b", Mode::Out, test_rec_nested())],
        None,
    )
}

#[test]
fn mod_flatten_rec() {
    let flat = rec("test").flatten(vec![], false);
    assert_eq!(flat[0].0, vec!["c".to_string()]);
    assert_eq!(flat[0].1, Type::bitvec(42));
    assert!(!flat[0].2);
    assert_eq!(flat[1].0, vec!["d".to_string()]);
    assert_eq!(flat[1].1, Type::bitvec(1337));
    assert!(!flat[1].2);
}

#[test]
fn common_flatten_rec() {
    let flat = rec("test").flatten(vec![], false);
    assert_eq!(flat[0].0, vec!["c".to_string()]);
    assert_eq!(flat[0].1, Type::bitvec(42));
    assert_eq!(flat[0].2, false);
    assert_eq!(flat[1].0, vec!["d".to_string()]);
    assert_eq!(flat[1].1, Type::bitvec(1337));
    assert_eq!(flat[1].2, false);
}

fn check_flatten_rec_nested() {
    let flat = rec_nested("test").flatten(vec![], false);
    assert_eq!(flat[0].0[0], "a".to_string());
    assert_eq!(flat[0].0[1], "c".to_string());
    assert_eq!(flat[0].1, Type::bitvec(42));
    assert!(!flat[0].2);
    assert_eq!(flat[1].0[0], "a".to_string());
    assert_eq!(flat[1].0[1], "d".to_string());
    assert_eq!(flat[1].1, Type::bitvec(1337));
    assert!(!flat[1].2);
    assert_eq!(flat[2].0[0], "b".to_string());
    assert_eq!(flat[2].0[1], "c".to_string());
    assert_eq!(flat[2].1, Type::bitvec(42));
    assert!(!flat[2].2);
    assert_eq!(flat[3].0[0], "b".to_string());
    assert_eq!(flat[3].0[1], "d".to_string());
    assert_eq!(flat[3].1, Type::bitvec(1337));
    assert!(!flat[3].2);
}

#[test]
fn mod_flatten_rec_nested() {
    check_flatten_rec_nested();
}

#[test]
fn common_flatten_rec_nested() {
    check_flatten_rec_nested();
}

fn check_has_reversed() {
    assert!(rec_rev("test").has_reversed());
    assert!(rec_rev_nested("test").has_reversed());
    assert!(!Type::record("test", vec![Field::new("a", Type::Bit, false), Field::new("b", Type::Bit, false)])
        .has_reversed());
}

#[test]
fn mod_has_reversed() {
    check_has_reversed();
}

#[test]
fn common_has_reversed() {
    check_has_reversed();
}

#[test]
fn flatten_marks_reversed_leaves() {
    let flat = rec_rev("r").flatten(vec!["p".to_string()], false);
    assert_eq!(flat.len(), 2);
    assert_eq!(flat[1].0, vec!["p".to_string(), "d".to_string()]);
    assert!(flat[1].2);
    let flat = Type::Bit.flatten(vec![], true);
    assert_eq!(flat, vec![(Vec::<String>::new(), Type::Bit, true)]);
}

#[test]
fn split_primitive() {
    assert_eq!(Type::bitvec(3).split(), (Some(Type::bitvec(3)), None));
}

#[test]
fn split_field() {
    let f0 = Field::new("test", Type::bitvec(3), false);
    assert_eq!(f0.split(), (Some(f0.duplicate()), None));

    let f1 = Field::new("test", Type::bitvec(3), true);
    assert_eq!(f1.split(), (None, Some(f1.reversed())));
}

#[test]
fn split_simple_rec() {
    let rec = Type::record("ra", vec![Field::new("fc", Type::Bit, false), Field::new("fd", Type::Bit, true)]);
    assert_eq!(rec.split().0.unwrap(), Type::record("ra", vec![Field::new("fc", Type::Bit, false)]));
    assert_eq!(rec.split().1.unwrap(), Type::record("ra", vec![Field::new("fd", Type::Bit, false)]));
}

#[test]
fn split_nested_rec() {
    let rec = Type::record(
        "test",
        vec![
            Field::new(
                "fa",
                Type::record("ra", vec![Field::new("fc", Type::Bit, false), Field::new("fd", Type::Bit, true)]),
                false,
            ),
            Field::new(
                "fb",
                Type::record("rb", vec![Field::new("fe", Type::Bit, false), Field::new("ff", Type::Bit, true)]),
                true,
            ),
        ],
    );

    assert_eq!(
        rec.split().0.unwrap(),
        Type::record(
            "test",
            vec![
                Field::new("fa", Type::record("ra", vec![Field::new("fc", Type::Bit, false)]), false),
                Field::new("fb", Type::record("rb", vec![Field::new("ff", Type::Bit, false)]), false)
            ]
        )
    );

    assert_eq!(
        rec.split().1.unwrap(),
        Type::record(
            "test",
            vec![
                Field::new("fa", Type::record("ra", vec![Field::new("fd", Type::Bit, false)]), false),
                Field::new("fb", Type::record("rb", vec![Field::new("fe", Type::Bit, false)]), false)
            ]
        )
    );
}

#[test]
fn split_port() {
    let (dn, up) = Port::new_documented(
        "test",
        Mode::Out,
        Type::record("test", vec![Field::new("a", Type::Bit, false), Field::new("b", Type::Bit, true)]),
        None,
    )
    .split();

    assert_eq!(
        dn,
        Some(Port::new_documented(
            "test_dn",
            Mode::Out,
            Type::record("test_dn", vec![Field::new("a", Type::Bit, false)]),
            None
        ))
    );

    assert_eq!(
        up,
        Some(Port::new_documented(
            "test_up",
            Mode::In,
            Type::record("test_up", vec![Field::new("b", Type::Bit, false)]),
            None
        ))
    );
}

#[test]
fn split_record_without_downstream_part() {
    let only_up = Type::record("r", vec![Field::new("x", Type::Bit, true)]);
    let (dn, up) = only_up.split();
    assert!(dn.is_none());
    assert_eq!(up.unwrap(), Type::record("r", vec![Field::new("x", Type::Bit, false)]));
}

#[test]
fn impls_test_mode_decl() {
    let m0 = Mode::In;
    let m1 = Mode::Out;
    assert_eq!(m0.vhdl_identifier().unwrap(), "in");
    assert_eq!(m1.vhdl_identifier().unwrap(), "out");
}

#[test]
fn impls_test_type_decl() {
    let t0 = Type::Bit;
    let t1 = Type::BitVec { width: 8 };
    let t2 = test_rec();
    let t3 = test_rec_nested();
    assert_eq!(t0.declare(true).unwrap(), "std_logic");
    assert_eq!(t1.declare(true).unwrap(), "std_logic_vector(7 downto 0)");
    assert_eq!(
        t2.declare(true).unwrap(),
        [
            "record rec_dn_type\n",
            "  c : std_logic;\n",
            "end record;\n",
            "\n",
            "record rec_up_type\n",
            "  d : std_logic_vector(3 downto 0);\n",
            "end record;"
        ].concat()
    );
    assert_eq!(
        t3.declare(true).unwrap(),
        [
            "record rec_nested_dn_type\n",
            "  a : std_logic;\n",
            "  b : rec_dn_type;\n",
            "end record;\n",
            "\n",
            "record rec_nested_up_type\n",
            "  b : rec_up_type;\n",
            "end record;"
        ].concat()
    );
}

#[test]
fn type_decl_of_inner_and_forward_records() {
    assert_eq!(
        test_rec().declare(false).unwrap(),
        "record rec_type\n  c : std_logic;\nend record;\n\nrecord rec_type\n  d : std_logic_vector(3 downto 0);\nend record;"
    );
    let fwd = Type::record("f", vec![Field::new("x", Type::Bit, false), Field::new("y", bv(0), false)]);
    assert_eq!(fwd.declare(true).unwrap(), "record f_type\n  x : std_logic;\n  y : std_logic_vector(0 downto 0);\nend record;");
    assert_eq!(fwd.vhdl_identifier().unwrap(), "f_type");
    assert_eq!(bv(1).vhdl_identifier().unwrap(), "std_logic_vector(0 downto 0)");
}

#[test]
fn impls_test_port_decl() {
    let p = Port::new("test", Mode::In, Type::BitVec { width: 10 });
    assert_eq!("test : in std_logic_vector(9 downto 0)", p.declare().unwrap());
    assert_eq!(p.vhdl_identifier().unwrap(), "test");
}

#[test]
fn impls_test_comp_decl() {
    let c = test_comp();
    assert_eq!(
        c.declare().unwrap(),
        [
            "component test_comp\n",
            "  port(\n",
            "    a_dn : in rec_dn_type;\n",
            "    a_up : out rec_up_type;\n",
            "    b_dn : out rec_nested_dn_type;\n",
            "    b_up : in rec_nested_up_type\n",
            "  );\n",
            "end component;"
        ].concat()
    );
}

#[test]
fn comp_decl_without_ports() {
    let c = Component::new("empty", vec![], vec![], None);
    assert_eq!(c.declare().unwrap(), "component empty\nend component;");
}

#[test]
fn impls_test_package_decl() {
    let p = Package { identifier: "test".to_string(), components: vec![test_comp()] };
    assert_eq!(
        p.declare(AbstractionLevel::Canonical).unwrap(),
        [
            "package test is\n",
            "\n",
            "record rec_dn_type\n",
            "  c : std_logic;\n",
            "end record;\n",
            "\n",
            "record rec_up_type\n",
            "  d : std_logic_vector(3 downto 0);\n",
            "end record;\n",
            "\n",
            "record rec_nested_dn_type\n",
            "  a : std_logic;\n",
            "  b : rec_dn_type;\n",
            "end record;\n",
            "\n",
            "record rec_nested_up_type\n",
            "  b : rec_up_type;\n",
            "end record;\n",
            "\n",
            "component test_comp\n",
            "  port(\n",
            "    a_dn : in rec_dn_type;\n",
            "    a_up : out rec_up_type;\n",
            "    b_dn : out rec_nested_dn_type;\n",
            "    b_up : in rec_nested_up_type\n",
            "  );\n",
            "end component;\n",
            "\n",
            "end test;",
        ].concat()
    )
}

#[test]
fn package_type_name_conflict() {
    let other = Type::record("rec", vec![Field::new("z", Type::Bit, false)]);
    let c2 = Component::new("other", vec![], vec![Port::new("z", Mode::In, other)], None);
    let p = Package { identifier: "test".to_string(), components: vec![test_comp(), c2] };
    assert_eq!(
        p.declare(AbstractionLevel::Fancy),
        Err(Error::BackEndError("Type name conflict: rec_type".to_string()))
    );
}

#[test]
fn record_types_are_listed_outer_first() {
    let types = test_rec_nested().list_record_types();
    assert_eq!(types, vec![test_rec_nested(), test_rec()]);
    assert_eq!(Type::Bit.list_record_types(), vec![]);
    let c = test_comp();
    assert_eq!(c.list_record_types(), vec![test_rec(), test_rec_nested(), test_rec()]);
    assert_eq!(Port::new("p", Mode::In, test_rec()).list_record_types(), vec![test_rec()]);
}

#[test]
fn flatten_component_ports() {
    let mut c = Component::new(
        "c",
        vec![],
        vec![Port::new("p", Mode::In, rec_rev("r")), Port::new("q", Mode::Out, Type::Bit)],
        None,
    );
    c.flatten_types();
    assert_eq!(
        c.ports(),
        &vec![
            Port::new("p_c", Mode::In, bv(42)),
            Port::new("p_d", Mode::Out, bv(1337)),
            Port::new("q", Mode::Out, Type::Bit),
        ]
    );
    assert_eq!(Identify::identifier(&c), "c");
    assert_eq!(Identify::identifier(&c.ports()[0]), "p_c");
    assert_eq!(Identify::identifier(&Field::new("f", Type::Bit, false)), "f");
}

#[test]
fn records_built_field_by_field() {
    let mut r = Record::new_empty("r");
    assert!(r.is_empty());
    r.insert_new_field("a", Type::Bit, false);
    assert!(!r.has_reversed_field());
    r.insert_new_field("b", rec_rev("inner"), false);
    assert!(!r.has_reversed_field());
    assert!(r.has_reversed());
    r.insert(Field::new("c", Type::Bit, true));
    assert!(r.has_reversed_field());
    assert_eq!(r.fields().len(), 3);
    assert!(r.fields()[2].is_reversed());
    assert!(!r.fields()[2].reversed().is_reversed());
    let s = Record::new_empty_stream("s");
    assert_eq!(s.fields()[0].identifier(), "valid");
    assert!(s.fields()[1].is_reversed());
}
