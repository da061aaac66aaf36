//! Implementations of streamlets by back-ends that users provide.

use vstd::prelude::*;
use crate::error::Result;
use crate::library::StreamletHandle;
use crate::name::Name;

verus! {

/// A back-end that implements a streamlet.
pub trait ImplementationBackend {
    /// The name of the back-end.
    fn name(&self) -> Name;

    /// The streamlet that the back-end implements.
    fn streamlet_handle(&self) -> StreamletHandle;

    /// What the back-end does when one of its interfaces is connected.
    fn connect_action(&self) -> Result<()>;
}

/// An implementation of a streamlet.
pub enum Implementation {
    /// An implementation by a back-end.
    Backend(Box<dyn ImplementationBackend>),
}

impl Implementation {
    /// The streamlet that this implementation implements, as its back-end
    /// reports it.
    pub fn streamlet_handle(&self) -> (h: StreamletHandle)
    {
        match self {
            Implementation::Backend(b) => b.streamlet_handle(),
        }
    }
}

} // verus!
