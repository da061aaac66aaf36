use tydi::chisel::{ChiselBackEnd, ChiselConfig, ChiselMode};
use tydi::design::{Interface, Mode, Streamlet};
use tydi::dot::{tab, Colors, DotStyle};
use tydi::error::Error;
use tydi::library::{Library, Project, StreamletHandle};
use tydi::logical::{Direction, LogicalStreamType, PositiveReal, Synchronicity};
use tydi::name::Name;
use tydi::phys::Complexity;
use tydi::refs::{InterfaceRef, LibraryRef, NamedTypeRef, NodeIORef, NodeIOView, StreamletInst, StreamletRef, TypeRef};
use tydi::store::{NamedParameter, NamedType, NamedTypeStore, ParameterStore, ParameterVariant};
use tydi::vhdl::{AbstractionLevel, VHDLBackEnd, VHDLConfig};

fn n(s: &str) -> Name {
    Name::try_new(s).unwrap()
}

#[test]
fn names_and_references() {
    assert!(Name::try_new("").is_err());
    assert!(Name::try_new("a__b").is_err());
    assert_eq!(Name::this().as_str(), "this");
    let r = NamedTypeRef::try_new("lib", "typ").unwrap();
    assert_eq!(r.to_text(), "lib::typ");
    assert_eq!(
        NamedTypeRef::try_new("1lib", "typ"),
        Err(Error::InvalidArgument("name cannot start with a digit".to_string()))
    );
    let s = StreamletRef { library: LibraryRef { library: n("lib") }, streamlet: n("s") };
    assert_eq!(s.to_text(), "lib::s");
    let i = StreamletInst::new(n("inst"), s.clone());
    assert_eq!(i.key(), n("inst"));
    assert_eq!(i.streamlet(), s);
    assert_eq!(i.to_text(), "inst : lib::s");
    let io = NodeIORef::new(n("inst"), n("a"));
    assert_eq!(io.node(), n("inst"));
    assert_eq!(io.interface(), n("a"));
    let view = NodeIOView::new(io.clone());
    assert_eq!(view.key(), "inst.a");
    assert_eq!(view.to_ref(), io);
    let _ = InterfaceRef { streamlet: s, interface: n("a") };
    assert_eq!(TypeRef::anon(LogicalStreamType::Null), TypeRef::Anon(LogicalStreamType::Null));
}

#[test]
fn modes_and_directions() {
    assert_eq!(Mode::from_text("in"), Ok(Mode::In));
    assert_eq!(Mode::from_text("out"), Ok(Mode::Out));
    assert_eq!(
        Mode::from_text("up"),
        Err(Error::InvalidArgument("up is not a valid interface Mode. Expected \"in\" or \"out\"".to_string()))
    );
    assert_eq!(Mode::In.reversed(), Mode::Out);
    assert_eq!(Mode::In.reversed().reversed(), Mode::In);
    let mut forward = Direction::Forward;
    let reverse = Direction::Reverse;
    forward.reverse();
    assert_eq!(forward, reverse);
    forward.reverse();
    assert_eq!(forward, reverse.reversed());
    assert_eq!(Direction::default(), Direction::Forward);
    assert_eq!(Synchronicity::default(), Synchronicity::Sync);
}

#[test]
fn interfaces_and_streamlets() {
    assert_eq!(
        Interface::try_new(n("clk"), Mode::In, LogicalStreamType::Null, None),
        Err(Error::InterfaceError("Name clk forbidden.".to_string()))
    );
    assert!(Interface::try_new(n("rst"), Mode::In, LogicalStreamType::Null, None).is_err());
    let a = Interface::try_new(n("a"), Mode::In, LogicalStreamType::Null, Some("doc")).unwrap();
    assert_eq!(a.mode(), Mode::In);
    assert_eq!(a.identifier(), "a");
    assert_eq!(a.doc(), Some("doc".to_string()));
    assert_eq!(a.typ(), &LogicalStreamType::Null);
    let b = Interface::try_new(n("a"), Mode::Out, LogicalStreamType::Null, None).unwrap();
    assert_eq!(Streamlet::from_builder(n("s"), vec![a, b], None), Err(Error::UnexpectedDuplicate));
    let c = Interface::try_new(n("c"), Mode::Out, LogicalStreamType::Null, None).unwrap().with_doc("d");
    let s = Streamlet::from_builder(n("s"), vec![c], Some("x")).unwrap();
    assert_eq!(s.identifier(), "s");
    assert_eq!(s.interfaces().len(), 1);
    assert_eq!(s.doc(), Some("x".to_string()));
    assert_eq!(s.interfaces()[0].doc(), Some("d".to_string()));
}

#[test]
fn logical_types() {
    assert_eq!(
        LogicalStreamType::try_new_bits(0),
        Err(Error::InvalidArgument("bit count cannot be zero".to_string()))
    );
    assert!(LogicalStreamType::try_new_group(vec![(n("a"), LogicalStreamType::Null), (n("a"), LogicalStreamType::Null)]).is_err());
    let g = LogicalStreamType::try_new_group(vec![
        (n("a"), LogicalStreamType::try_new_bits(1).unwrap()),
        (n("b"), LogicalStreamType::try_new_group(vec![(n("c"), LogicalStreamType::try_new_bits(2).unwrap())]).unwrap()),
    ])
    .unwrap();
    assert_eq!(
        g.fields(),
        vec![(vec![n("a")], 1), (vec![n("c"), n("b")], 2)]
    );
    assert!(g.is_element_only());
    assert!(!g.is_null());
    let u = LogicalStreamType::try_new_union(vec![
        (n("a"), LogicalStreamType::try_new_bits(3).unwrap()),
        (
            n("b"),
            LogicalStreamType::try_new_group(vec![
                (n("x"), LogicalStreamType::try_new_bits(2).unwrap()),
                (n("y"), LogicalStreamType::try_new_bits(2).unwrap()),
            ])
            .unwrap(),
        ),
        (n("c"), LogicalStreamType::Null),
    ])
    .unwrap();
    assert_eq!(u.fields(), vec![(vec![n("tag")], 2), (vec![n("union")], 3)]);
    let single = LogicalStreamType::try_new_union(vec![(n("a"), LogicalStreamType::Null)]).unwrap();
    assert!(single.is_null());
    assert_eq!(single.fields(), vec![]);
    assert!(PositiveReal::try_new("0").is_err());
    assert!(PositiveReal::try_new("-1.5").is_err());
    assert!(PositiveReal::try_new("abc").is_err());
    assert_eq!(PositiveReal::try_new("2.5e1").unwrap().literal(), "2.5e1");
}

#[test]
fn stores() {
    let mut store = NamedTypeStore::default();
    let t = NamedType::try_new("Wheat", LogicalStreamType::Null, None).unwrap();
    assert_eq!(store.insert(t), Ok(n("Wheat")));
    let again = NamedType::try_new("Wheat", LogicalStreamType::Null, None).unwrap();
    assert_eq!(
        store.insert(again),
        Err(Error::ProjectError("Type Wheat already in library.".to_string()))
    );
    assert_eq!(store.get(&n("Wheat")).unwrap().key(), &n("Wheat"));
    assert_eq!(
        store.get(&n("Flour")),
        Err(Error::ProjectError("Type with key Flour does not exist.".to_string()))
    );
    assert_eq!(store.types().len(), 1);
    assert!(NamedTypeStore::from_builder(vec![
        NamedType::try_new("a", LogicalStreamType::Null, None).unwrap(),
        NamedType::try_new("a", LogicalStreamType::Null, None).unwrap(),
    ])
    .is_err());

    let mut params = ParameterStore::from_builder(n("store"), vec![]).unwrap();
    let p = NamedParameter::try_new("width", ParameterVariant::UInt(8), Some("bits")).unwrap();
    assert_eq!(p.identifier(), "width");
    assert_eq!(p.doc(), Some("bits".to_string()));
    let h = params.add(p).unwrap();
    assert_eq!(h.lib, n("store"));
    assert_eq!(h.param, n("width"));
    assert_eq!(params.get(&n("width")).unwrap().item(), &ParameterVariant::UInt(8));
    assert_eq!(
        params.add(NamedParameter::try_new("width", ParameterVariant::String("x".to_string()), None).unwrap()),
        Err(Error::ProjectError("Error while adding width to the library".to_string()))
    );
    assert_eq!(params.get(&n("width")).unwrap().item(), &ParameterVariant::String("x".to_string()));
    assert_eq!(
        params.get(&n("depth")),
        Err(Error::LibraryError("Parameter depth not found in store store".to_string()))
    );
    assert_eq!(params.key(), &n("store"));
}

#[test]
fn back_end_configurations() {
    assert_eq!(AbstractionLevel::from_text("canon"), Ok(AbstractionLevel::Canonical));
    assert_eq!(AbstractionLevel::from_text("fancy"), Ok(AbstractionLevel::Fancy));
    assert_eq!(AbstractionLevel::from_text("x"), Err(Error::InvalidArgument("x".to_string())));
    assert_eq!(AbstractionLevel::default(), AbstractionLevel::Fancy);
    let d = VHDLConfig::default();
    assert_eq!(d.abstraction(), AbstractionLevel::Canonical);
    assert_eq!(d.suffix(), Some("gen".to_string()));
    assert_eq!(VHDLConfig::new(None, None).abstraction(), AbstractionLevel::Fancy);
    let b = VHDLBackEnd::from(VHDLConfig::new(Some(AbstractionLevel::Canonical), Some("x".to_string())));
    assert_eq!(b.config().suffix(), Some("x".to_string()));
    assert_eq!(VHDLBackEnd::default().config().abstraction(), AbstractionLevel::Canonical);
    let c = ChiselConfig::default();
    assert_eq!(c.abstraction(), tydi::chisel::AbstractionLevel::Fancy);
    assert_eq!(c.suffix(), None);
    assert_eq!(ChiselBackEnd::from(ChiselConfig::default()).config().suffix(), None);
    assert_ne!(ChiselMode::In, ChiselMode::Out);
}

#[test]
fn dot_styles() {
    assert_eq!(tab(2), "\t\t");
    assert_eq!(tab(0), "");
    let style = DotStyle::default();
    assert_eq!(style.node(0), "fillcolor=\"#ffffff\", color=\"#f2f2f2\"");
    assert_eq!(
        style.cluster(1, 1),
        "\tstyle=\"rounded\";\n\tcolor=\"#607D8B\" \n\tbgcolor=\"#F5F5F5\"\n"
    );
    assert_eq!(
        style.io(0, Mode::In),
        "style=\"filled\", fillcolor=\"#FFC107\", color=\"#FFEB3B\""
    );
    assert_eq!(
        style.io(0, Mode::Out),
        "style=\"filled\", fillcolor=\"#C8E6C9\", color=\"#388E3C\""
    );
    assert_eq!(Colors::default().0[6].d, "#536DFE");
}

#[test]
fn libraries_and_projects() {
    let lib = Library::from_sdf(
        "prims",
        "Streamlet a ( x: in Null, y: out Bits<3>)\nStreamlet b ( x: in Null )",
    )
    .unwrap();
    assert_eq!(lib.key(), &n("prims"));
    assert_eq!(lib.streamlets().len(), 2);
    assert_eq!(lib.get_streamlet(&n("b")).unwrap().identifier(), "b");
    assert_eq!(
        lib.get_streamlet(&n("c")),
        Err(Error::ProjectError("Streamlet c not found in library prims".to_string()))
    );
    assert_eq!(
        Library::from_sdf("1bad", ""),
        Err(Error::InvalidArgument("name cannot start with a digit".to_string()))
    );
    assert_eq!(
        Library::from_sdf("dup", "Streamlet a ( x: in Null )\nStreamlet a ( y: in Null )"),
        Err(Error::UnexpectedDuplicate)
    );
    let mut other = Library::new(n("other"));
    let s = tydi::sdf::streamlet("Streamlet c ( x: in Null )").unwrap().1;
    assert_eq!(other.add_streamlet(s), Ok(StreamletHandle { lib: n("other"), streamlet: n("c") }));
    let s2 = tydi::sdf::streamlet("Streamlet c ( z: out Null )").unwrap().1;
    assert_eq!(
        other.add_streamlet(s2),
        Err(Error::ProjectError("Error while adding c to the library".to_string()))
    );
    let mut project = Project::from_builder(n("proj"), vec![lib]).unwrap();
    assert_eq!(project.identifier(), "proj");
    assert_eq!(project.add_lib(other), Ok(n("other")));
    assert_eq!(
        project.add_lib(Library::new(n("other"))),
        Err(Error::ProjectError("Error while adding other to the project".to_string()))
    );
    assert_eq!(project.libraries().len(), 2);
    assert_eq!(
        project.get_lib(&n("none")),
        Err(Error::ProjectError("Error while retrieving Name(\"none\"), it does not exist in project.".to_string()))
    );
    let handle = StreamletHandle { lib: n("prims"), streamlet: n("a") };
    assert_eq!(project.get_streamlet(&handle).unwrap().interfaces().len(), 2);
    assert!(Project::from_builder(n("p"), vec![Library::new(n("l")), Library::new(n("l"))]).is_err());
}

#[test]
fn logical_type_compatibility() {
    let bits = |k: usize| LogicalStreamType::try_new_bits(k).unwrap();
    let stream = |data: LogicalStreamType, c: usize| {
        LogicalStreamType::new_stream(tydi::logical::Stream::new(
            data,
            PositiveReal::one(),
            1,
            Synchronicity::Sync,
            Complexity::new_major(c),
            Direction::Forward,
            None,
            false,
        ))
    };
    assert!(bits(3).same(&bits(3)));
    assert!(!bits(3).same(&bits(4)));
    assert!(bits(3).compatible(&bits(3)));
    assert!(!bits(3).compatible(&bits(4)));
    assert!(stream(bits(8), 1).compatible(&stream(bits(8), 4)));
    assert!(!stream(bits(8), 4).compatible(&stream(bits(8), 1)));
    assert!(stream(bits(8), 4).compatible(&stream(bits(8), 4)));
    let g = |t: LogicalStreamType| LogicalStreamType::try_new_group(vec![(n("a"), t)]).unwrap();
    let u = |t: LogicalStreamType| LogicalStreamType::try_new_union(vec![(n("a"), t)]).unwrap();
    assert!(g(stream(bits(2), 1)).compatible(&u(stream(bits(2), 2))));
    assert!(!g(bits(2)).compatible(&u(bits(3))));
    let renamed = LogicalStreamType::try_new_group(vec![(n("b"), bits(2))]).unwrap();
    assert!(!g(bits(2)).compatible(&renamed));
}

#[test]
fn complexity_order() {
    let c = |v: Vec<usize>| Complexity::new(v).unwrap();
    assert!(c(vec![1]).is_lower_than(&c(vec![2])));
    assert!(c(vec![4, 1]).is_lower_than(&c(vec![4, 2])));
    assert!(!c(vec![4, 2]).is_lower_than(&c(vec![4, 2])));
    assert!(!c(vec![4]).is_lower_than(&c(vec![4, 0])));
    assert!(c(vec![4]).is_lower_than(&c(vec![4, 0, 1])));
    assert!(!c(vec![5]).is_lower_than(&c(vec![4, 9])));
    assert!(c(vec![3, 1]).same(&c(vec![3, 1])));
    assert!(!c(vec![3]).same(&c(vec![3, 0])));
}

#[test]
fn streamlet_interfaces_and_copies() {
    let a = Interface::try_new(n("a"), Mode::In, LogicalStreamType::try_new_bits(3).unwrap(), Some("doc")).unwrap();
    let b = Interface::try_new(n("b"), Mode::Out, LogicalStreamType::new_null(), None).unwrap();
    let s = Streamlet::from_builder(n("s"), vec![a.duplicate(), b], None).unwrap();
    assert_eq!(s.get_interface(&n("a")).unwrap(), &a);
    assert_eq!(
        s.get_interface(&n("z")),
        Err(Error::InterfaceError("Interface z does not exist for streamlet s.".to_string()))
    );
    let r = a.duplicate().reversed();
    assert_eq!(r.mode(), Mode::Out);
    assert_eq!(r.identifier(), "a");
    assert_eq!(r.doc(), Some("doc".to_string()));
    assert!(r.typ().same(a.typ()));
    let t = LogicalStreamType::try_new_group(vec![(n("x"), LogicalStreamType::try_new_bits(1).unwrap())]).unwrap();
    assert_eq!(t.duplicate(), t);
}

#[test]
fn project_streamlet_lookup() {
    let lib = Library::from_sdf("lib", "Streamlet a ( x: in Null )").unwrap();
    let mut prj = Project::new(n("p"));
    prj.add_lib(lib).unwrap();
    let h = |l: &str, s: &str| StreamletHandle { lib: n(l), streamlet: n(s) };
    assert_eq!(prj.get_streamlet(&h("lib", "a")).unwrap().identifier(), "a");
    assert_eq!(
        prj.get_streamlet(&h("lib", "b")),
        Err(Error::ProjectError("Streamlet b not found in library lib".to_string()))
    );
    assert_eq!(
        prj.get_streamlet(&h("nolib", "a")),
        Err(Error::ProjectError("Error while retrieving Name(\"nolib\"), it does not exist in project.".to_string()))
    );
}

#[test]
fn library_with_parameter_stores_and_instance_interfaces() {
    let s = tydi::sdf::streamlet("Streamlet a ( x: in Null, y: out Bits<2> )").unwrap().1;
    let store = ParameterStore::from_builder(n("params"), vec![]).unwrap();
    let lib = Library::try_new(n("prims"), vec![store], vec![s]).unwrap();
    assert_eq!(lib.streamlets().len(), 1);
    let dup = vec![
        ParameterStore::from_builder(n("p"), vec![]).unwrap(),
        ParameterStore::from_builder(n("p"), vec![]).unwrap(),
    ];
    assert_eq!(Library::try_new(n("l"), dup, vec![]), Err(Error::UnexpectedDuplicate));
    let project = Project::from_builder(n("proj"), vec![lib]).unwrap();
    let inst = StreamletInst::new(n("i"), StreamletRef { library: LibraryRef { library: n("prims") }, streamlet: n("a") });
    let y = inst.get_interface(&project, &n("y")).unwrap();
    assert_eq!(y.key(), &n("y"));
    assert_eq!(y.mode(), Mode::Out);
    assert_eq!(
        inst.get_interface(&project, &n("z")),
        Err(Error::InterfaceError("Interface z does not exist for streamlet a.".to_string()))
    );
    let t = NamedType::try_new("Wheat", LogicalStreamType::Null, Some("grain")).unwrap();
    assert_eq!(t.identifier(), "Wheat");
    assert_eq!(t.doc(), &Some("grain".to_string()));
}
