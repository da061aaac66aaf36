use tydi::error::Error;
use tydi::implementation::{Implementation, ImplementationBackend};
use tydi::library::StreamletHandle;
use tydi::name::Name;

struct Fixed(StreamletHandle);

impl ImplementationBackend for Fixed {
    fn name(&self) -> Name {
        Name::try_new("fixed").unwrap()
    }

    fn streamlet_handle(&self) -> StreamletHandle {
        self.0.clone()
    }

    fn connect_action(&self) -> Result<(), Error> {
        Ok(())
    }
}

#[test]
fn backend_implementation_reports_its_streamlet() {
    let h = StreamletHandle { lib: Name::try_new("lib").unwrap(), streamlet: Name::try_new("s").unwrap() };
    let b = Fixed(h.clone());
    assert_eq!(b.name().as_str(), "fixed");
    assert_eq!(b.connect_action(), Ok(()));
    let i = Implementation::Backend(Box::new(b));
    assert_eq!(i.streamlet_handle(), h);
}
