use tydi::chisel::{Analyze, ChiselIdentifier, ChiselMode, DeclareChisel, DeclareChiselType, FieldMode, IsDecoupled};
use tydi::error::Error;
use tydi::hdl::{Component, Field, Mode, Package, Port, Record, Type};

fn bv(w: usize) -> Type {
    Type::bitvec(w)
}

fn rec(name: &str) -> Type {
    Type::record(name, vec![Field::new("c", bv(42), false), Field::new("d", bv(1337), false)])
}

fn rec_rev(name: &str) -> Type {
    Type::record(name, vec![Field::new("c", bv(42), false), Field::new("d", bv(1337), true)])
}

fn rec_rev_nested(name: &str) -> Type {
    Type::record(
        name,
        vec![
            Field::new("a", rec(&format!("{}_a", name)), false),
            Field::new("b", rec_rev(&format!("{}_b", name)), false),
        ],
    )
}

fn test_comp() -> Component {
    Component::new(
        "test_comp",
        vec![],
        vec![
            Port::new_documented("a", Mode::In, rec_rev("a"), None),
            Port::new_documented("b", Mode::Out, rec_rev_nested("b"), None),
        ],
        None,
    )
}

fn rec_a() -> String {
    String::from("class a_type extends Bundle { \n   val c = Input(UInt(42.W))\n   val d = Output(UInt(1337.W))\n}")
}

fn rec_b() -> String {
    [
    "class b_a_type extends Bundle { \n   val c = Input(UInt(42.W))\n   val d = Input(UInt(1337.W))\n}\n\n",
    "class b_b_type extends Bundle { \n   val c = Input(UInt(42.W))\n   val d = Output(UInt(1337.W))\n}\n\n",
    "class b_type extends Bundle { \n   val a = Flipped(new b_a_type)\n   val b = Flipped(new b_b_type)\n}"
].concat()
}

fn comp() -> String {
    [
    "class test_comp extends Module {\n",
    " val io =  IO(new Bundle{\n",
    "    val a = Flipped(new a_type)\n",
    "    val b = (new b_type)\n",
    "  })\n",
    "\n\n// User code\n\n",
    "}"
].concat()
}

#[test]
fn mode_decl() {
    let m0 = Mode::In;
    let m1 = Mode::Out;
    assert_eq!(m0.chisel_identifier().unwrap(), "Input");
    assert_eq!(m1.chisel_identifier().unwrap(), "Output");
}

#[test]
fn chisel_modes() {
    assert_eq!(ChiselMode::Forward.chisel_identifier().unwrap(), "Flipped");
    assert_eq!(ChiselMode::Reverse.chisel_identifier().unwrap(), "");
    assert_eq!(Field::new("x", Type::Bit, true).field_mode(), Ok(ChiselMode::Out));
    assert_eq!(Field::new("x", rec("r"), true).field_mode(), Ok(ChiselMode::Reverse));
    assert_eq!(Port::new("p", Mode::Out, rec("r")).field_mode(), Ok(ChiselMode::Reverse));
    assert_eq!(Port::new("p", Mode::In, Type::Bit).field_mode(), Ok(ChiselMode::In));
}

#[test]
fn prim_type_decl() {
    let t0 = Type::Bit;
    assert_eq!(t0.declare(true).unwrap(), "Bool()");

    let t1 = Type::BitVec { width: 8 };
    assert_eq!(t1.declare(true).unwrap(), "UInt(8.W)");
    assert_eq!(bv(0).declare(false).unwrap(), "UInt(1.W)");
}

#[test]
fn record_type_decl() {
    let t0 = rec_rev("rec");
    assert_eq!(
        t0.declare(true).unwrap(),
        "class rec_type extends Bundle { \n   val c = Input(UInt(42.W))\n   val d = Output(UInt(1337.W))\n}"
    );

    let t1 = rec_rev_nested("b");
    assert_eq!(t1.declare(true).unwrap(), rec_b());
}

#[test]
fn decoupled_records() {
    let r = Record::new_empty_stream("s");
    assert!(r.is_decupled());
    let t = Type::Record(r);
    assert!(t.is_decupled());
    assert_eq!(t.chisel_identifier().unwrap(), "Decoupled(new s_type)");
    assert_eq!(t.declare(true).unwrap(), "class s_type extends Bundle { \n}");
    assert!(!rec("x").is_decupled());
    assert_eq!(rec("x").chisel_identifier().unwrap(), "new x_type");
}

#[test]
fn port_decl() {
    let p0 = Port::new("test", Mode::In, Type::BitVec { width: 10 });
    assert_eq!(p0.declare().unwrap(), "val test = Input(UInt(10.W))\n");
    let p1 = Port::new("test", Mode::Out, Type::BitVec { width: 10 });
    assert_eq!(p1.declare().unwrap(), "val test = Output(UInt(10.W))\n");
    let p2 = Port::new("test", Mode::Out, Type::Bit).with_doc("one\ntwo");
    assert_eq!(p2.declare().unwrap(), "//one\n    //two\n    val test = Output(Bool())\n");
}

#[test]
fn comp_decl() {
    let c = test_comp().with_doc(" My awesome\n Component");
    assert_eq!(c.declare().unwrap(), format!("// My awesome\n// Component\n{}", comp()));
    let clocked = Component::new(
        "k",
        vec![],
        vec![Port::new("clk", Mode::In, Type::Bit), Port::new("rst", Mode::In, Type::Bit)],
        None,
    );
    assert_eq!(
        clocked.declare().unwrap(),
        "class k extends Module {\n val io =  IO(new Bundle{\n  })\n\n\n// User code\n\n}"
    );
}

#[test]
fn package_decl() {
    let p = Package { identifier: "test".to_string(), components: vec![test_comp()] };
    assert_eq!(
        p.declare().unwrap(),
        format!("package test;\n\nimport chisel3._ \n\n{}\n\n{}\n\n{}\n\n", rec_a(), rec_b(), comp())
    );
    assert_eq!(test_comp().list_record_types(), vec![rec_rev("a"), rec_rev_nested("b")]);
}

#[test]
fn chisel_package_conflict() {
    let c2 = Component::new("other", vec![], vec![Port::new("z", Mode::In, rec("a"))], None);
    let p = Package { identifier: "test".to_string(), components: vec![test_comp(), c2] };
    assert_eq!(p.declare(), Err(Error::BackEndError("Type name conflict: new a_type".to_string())));
}
