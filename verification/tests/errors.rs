use tydi::error::{Error, LineErr};

#[test]
fn error() {
    let a = Error::InvalidArgument("test".to_string());
    let b = Error::UnexpectedDuplicate;
    assert_eq!(a.to_string(), "Invalid argument: test");
    assert_eq!(b.to_string(), "Unexpected duplicate");
}

#[test]
fn error_texts_of_each_variant() {
    assert_eq!(Error::UnknownError.to_string(), "Unknown error");
    assert_eq!(Error::CLIError("x".to_string()).to_string(), "CLI Error: x");
    assert_eq!(Error::FileIOError("f".to_string()).to_string(), "File I/O error: f");
    assert_eq!(Error::ParsingError("p".to_string()).to_string(), "Parsing error: p");
    assert_eq!(Error::InvalidTarget("t".to_string()).to_string(), "Invalid target: t");
    assert_eq!(Error::BackEndError("b".to_string()).to_string(), "Back-end error: b");
    assert_eq!(Error::InterfaceError("i".to_string()).to_string(), "Interface error: i");
    assert_eq!(Error::ProjectError("j".to_string()).to_string(), "Project error: j");
    assert_eq!(Error::ComposerError("c".to_string()).to_string(), "Composer error: c");
    assert_eq!(Error::LibraryError("l".to_string()).to_string(), "Library error: l");
    let le = LineErr::new(3, "bad".to_string()).on_line(42);
    assert_eq!(le.line, 42);
    assert_eq!(
        Error::ImplParsingError(le).to_string(),
        "Implementation parsing error on line: 42:bad"
    );
}
