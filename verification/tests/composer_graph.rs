use tydi::error::Error;
use tydi::graph::{Composer, Interface, Library, Mode, Streamlet};
use tydi::logical::LogicalStreamType;

fn empty_streamlet() -> Streamlet {
    Streamlet::new(vec![
        ("in".to_string(), Interface { mode: Mode::In, logical_type: LogicalStreamType::Null }),
        ("out".to_string(), Interface { mode: Mode::Out, logical_type: LogicalStreamType::Null }),
    ])
}

#[test]
fn construct() -> Result<(), Error> {
    let library = Library::new(vec![("empty".to_string(), empty_streamlet())]);

    let mut composer = Composer::new(&library);

    composer.instantiate("empty", "first_empty")?;
    composer.instantiate("empty", "second_empty")?;
    composer.connect(("first_empty", "in"), ("second_empty", "out"))?;
    composer.connect(("second_empty", "in"), ("first_empty", "out"))?;

    assert_eq!(
        composer.get_instance("first_empty").unwrap().get_interface("in").unwrap().logical_type(),
        &LogicalStreamType::Null
    );
    Ok(())
}

#[test]
fn composer_refusals_and_indices() {
    let library = Library::new(vec![
        ("empty".to_string(), empty_streamlet()),
        ("bits".to_string(), Streamlet::new(vec![])),
        ("empty".to_string(), Streamlet::new(vec![(
            "x".to_string(),
            Interface { mode: Mode::Out, logical_type: LogicalStreamType::try_new_bits(2).unwrap() },
        )])),
    ]);
    assert!(library.get_streamlet("empty").unwrap().get_interface("in").is_none());
    assert!(library.get_streamlet("empty").unwrap().get_interface("x").is_some());
    assert!(library.get_streamlet("nope").is_none());
    let mut composer = Composer::new(&library);
    assert_eq!(composer.instantiate("empty", "a"), Ok(0));
    assert_eq!(composer.instantiate("bits", "b"), Ok(1));
    assert_eq!(composer.instantiate("bits", "a"), Err(Error::UnknownError));
    assert_eq!(composer.instantiate("nope", "c"), Err(Error::UnknownError));
    assert_eq!(composer.get_instance_idx("b"), Ok(1));
    assert_eq!(composer.get_instance_idx("c"), Err(Error::UnknownError));
    assert!(composer.get_instance("c").is_none());
    assert!(composer.get_streamlet("nope").is_err());
    assert_eq!(composer.connect(("a", "x"), ("b", "y")), Ok(0));
    assert_eq!(composer.connect(("a", "x"), ("zz", "y")), Err(Error::UnknownError));
    assert_eq!(composer.connect(("a", "x"), ("a", "x")), Ok(1));
}

#[test]
fn streamlet_interfaces_collect_in_order() {
    let s = Streamlet::new(vec![
        ("p".to_string(), Interface { mode: Mode::In, logical_type: LogicalStreamType::Null }),
        ("p".to_string(), Interface { mode: Mode::Out, logical_type: LogicalStreamType::Null }),
    ]);
    assert_eq!(s.get_interface("p").unwrap().mode, Mode::Out);
    assert!(s.get_interface("q").is_none());
}
