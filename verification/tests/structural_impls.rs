use tydi::error::Error;
use tydi::library::{Library, Project};
use tydi::name::Name;
use tydi::refs::{LibraryRef, NodeIORef, StreamletRef};
use tydi::structural::{Interfaces, StructuralImplBuilder};

fn n(s: &str) -> Name {
    Name::try_new(s).unwrap()
}

fn sref(lib: &str, s: &str) -> StreamletRef {
    StreamletRef { library: LibraryRef { library: n(lib) }, streamlet: n(s) }
}

fn project() -> Project {
    let lib = Library::from_sdf(
        "lib",
        "Streamlet top ( i : in Bits<8>, o : out Bits<8> )\n\
         Streamlet inv ( a : in Bits<8>, b : out Bits<8> )\n\
         Streamlet narrow ( a : in Bits<4>, b : out Bits<4> )",
    )
    .unwrap();
    let mut prj = Project::new(n("prj"));
    prj.add_lib(lib).unwrap();
    prj
}

#[test]
fn builder_example() {
    let prj = project();
    let mut b = StructuralImplBuilder::try_new(&prj, &sref("lib", "top")).unwrap();
    let this = b.this();
    assert_eq!(this.key(), n("this"));
    let inv = b.instantiate(sref("lib", "inv"), "inv").unwrap();
    assert_eq!(inv.key(), n("inv"));
    assert!(b.connect(inv.io("a"), this.io("i")).is_ok());
    assert!(b.connect(this.io("o"), inv.io("b")).is_ok());
    let imp = b.finish();
    assert_eq!(imp.streamlet(), sref("lib", "top"));
    assert_eq!(imp.nodes().len(), 2);
    assert_eq!(imp.edges().len(), 2);
    assert_eq!(imp.edges()[0].source(), NodeIORef::new(n("this"), n("i")));
    assert_eq!(imp.edges()[0].sink(), NodeIORef::new(n("inv"), n("a")));
    assert!(imp.get_edge(&NodeIORef::new(n("this"), n("o"))).is_some());
    assert!(imp.get_edge(&NodeIORef::new(n("inv"), n("x"))).is_none());
    assert_eq!(imp.node(n("inv")).unwrap().key(), n("inv"));
    assert_eq!(
        imp.node(n("ghost")),
        Err(Error::ComposerError(
            "Structural implementation of streamlet lib::top has no node named ghost.".to_string()
        ))
    );
}

#[test]
fn typo_in_interface_is_refused() {
    let prj = project();
    let mut b = StructuralImplBuilder::try_new(&prj, &sref("lib", "top")).unwrap();
    let beans = b.this().io("i");
    let coffee = b.this().io("covfefe");
    assert_eq!(
        b.connect(coffee, beans),
        Err(Error::InterfaceError("Interface covfefe does not exist for streamlet top.".to_string()))
    );
    assert_eq!(
        b.connect(b.this().io("1x"), b.this().io("i")),
        Err(Error::InvalidArgument("name cannot start with a digit".to_string()))
    );
    assert_eq!(
        b.connect(Ok(NodeIORef::new(n("ghost"), n("a"))), b.this().io("i")),
        Err(Error::ComposerError(
            "Structural implementation of streamlet lib::top has no node named ghost.".to_string()
        ))
    );
}

#[test]
fn connections_are_checked() {
    let prj = project();
    let mut b = StructuralImplBuilder::try_new(&prj, &sref("lib", "top")).unwrap();
    let this = b.this();
    let inv = b.instantiate(sref("lib", "inv"), "inv").unwrap();
    let narrow = b.instantiate(sref("lib", "narrow"), "narrow").unwrap();
    assert_eq!(
        b.connect(inv.io("b"), this.io("i")),
        Err(Error::ComposerError(
            "Attempting to connect this.i as sink, but interface is not an input.".to_string()
        ))
    );
    assert_eq!(
        b.connect(inv.io("a"), this.io("o")),
        Err(Error::ComposerError(
            "Attempting to connect this.o as source, but interface is not an output.".to_string()
        ))
    );
    assert_eq!(
        b.connect(narrow.io("a"), this.io("i")),
        Err(Error::ComposerError("Types of sink narrow.a and of source this.i are incompatible.".to_string()))
    );
    assert!(b.connect(inv.io("a"), this.io("i")).is_ok());
    assert_eq!(
        b.connect(inv.io("a"), this.io("i")),
        Err(Error::ComposerError(
            "Cannot connect sink inv.a to source this.i, source is already connected.".to_string()
        ))
    );
    assert!(b.connect(narrow.io("a"), narrow.io("b")).is_ok());
    assert_eq!(
        b.connect(narrow.io("a"), inv.io("b")),
        Err(Error::ComposerError("Types of sink narrow.a and of source inv.b are incompatible.".to_string()))
    );
    assert_eq!(b.finish().edges().len(), 2);
}

#[test]
fn instances_and_missing_streamlets() {
    let prj = project();
    assert_eq!(
        StructuralImplBuilder::try_new(&prj, &sref("nolib", "top")).err(),
        Some(Error::ProjectError(
            "Error while retrieving Name(\"nolib\"), it does not exist in project.".to_string()
        ))
    );
    assert_eq!(
        StructuralImplBuilder::try_new(&prj, &sref("lib", "nope")).err(),
        Some(Error::ProjectError("Streamlet nope not found in library lib".to_string()))
    );
    let mut b = StructuralImplBuilder::try_new(&prj, &sref("lib", "top")).unwrap();
    assert!(b.instantiate(sref("lib", "inv"), "x").is_ok());
    assert_eq!(
        b.instantiate(sref("lib", "inv"), "x"),
        Err(Error::ComposerError("Instance x already exists in structural implementation of lib::inv".to_string()))
    );
    assert_eq!(
        b.instantiate(sref("lib", "inv"), "this"),
        Err(Error::ComposerError("Instance this already exists in structural implementation of lib::inv".to_string()))
    );
    assert!(b.instantiate(sref("lib", "inv"), "a__b").is_err());
    let ghost = b.instantiate(sref("other", "s"), "g").unwrap();
    assert_eq!(
        b.connect(ghost.io("a"), b.this().io("i")),
        Err(Error::ProjectError(
            "Error while retrieving Name(\"other\"), it does not exist in project.".to_string()
        ))
    );
}
