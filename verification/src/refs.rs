//! References between the parts of a design: to libraries, named types,
//! streamlets and interfaces, and to the nodes of structural
//! implementations.

use vstd::prelude::*;
use crate::error::{Error, Result};
use crate::logical::LogicalStreamType;
use crate::name::{is_valid_name, name_refusal, Name};

verus! {

/// A reference to a library.
#[derive(Debug, Clone, PartialEq)]
pub struct LibraryRef {
    pub library: Name,
}

/// A reference to a named type in a library.
#[derive(Debug, Clone, PartialEq)]
pub struct NamedTypeRef {
    pub library: LibraryRef,
    pub typ: Name,
}

/// A reference to a type: anonymous, or named in a library.
#[derive(Debug, PartialEq)]
pub enum TypeRef {
    /// An anonymous type.
    Anon(LogicalStreamType),
    /// A named type.
    Named(NamedTypeRef),
}

/// A reference to a streamlet in a library.
#[derive(Debug, Clone, PartialEq)]
pub struct StreamletRef {
    pub library: LibraryRef,
    pub streamlet: Name,
}

/// A reference to an interface of a streamlet.
#[derive(Debug, Clone, PartialEq)]
pub struct InterfaceRef {
    pub streamlet: StreamletRef,
    pub interface: Name,
}

impl TypeRef {
    /// A reference to an anonymous type.
    pub fn anon(logical_type: LogicalStreamType) -> (r: TypeRef)
        ensures
            r matches TypeRef::Anon(t) && t@ == logical_type@,
    {
        TypeRef::Anon(logical_type)
    }
}

impl NamedTypeRef {
    /// A reference to the type `typ` of library `lib`; fails where either
    /// name breaks a naming rule, the library's first.
    pub fn try_new(lib: &str, typ: &str) -> (r: Result<NamedTypeRef>)
        ensures
            is_valid_name(lib@) && is_valid_name(typ@) ==> (r matches Ok(n)
                && n.library.library@ == lib@ && n.typ@ == typ@),
            !is_valid_name(lib@) ==> (r matches Err(Error::InvalidArgument(m)) && m@ == name_refusal(lib@)),
            is_valid_name(lib@) && !is_valid_name(typ@) ==> (r matches Err(Error::InvalidArgument(m))
                && m@ == name_refusal(typ@)),
    {
        let library = Name::try_new(lib)?;
        let typ = Name::try_new(typ)?;
        Ok(NamedTypeRef { library: LibraryRef { library }, typ })
    }

    /// The text of the reference: `library::type`.
    pub fn to_text(&self) -> (s: String)
        ensures
            s@ == self.library.library@ + "::"@ + self.typ@,
    {
        let mut s = String::new();
        s.append(self.library.library.as_str());
        s.append("::");
        s.append(self.typ.as_str());
        s
    }
}

impl StreamletRef {
    /// The text of the reference: `library::streamlet`.
    pub fn to_text(&self) -> (s: String)
        ensures
            s@ == self.library.library@ + "::"@ + self.streamlet@,
    {
        let mut s = String::new();
        s.append(self.library.library.as_str());
        s.append("::");
        s.append(self.streamlet.as_str());
        s
    }

    /// A copy of the reference.
    pub fn duplicate(&self) -> (r: StreamletRef)
        ensures
            r.library.library@ == self.library.library@,
            r.streamlet@ == self.streamlet@,
    {
        StreamletRef {
            library: LibraryRef { library: self.library.library.duplicate() },
            streamlet: self.streamlet.duplicate(),
        }
    }
}

/// A reference to an interface of a node, within an implementation.
#[derive(Debug, Clone, PartialEq)]
pub struct NodeIORef {
    node: Name,
    interface: Name,
}

impl NodeIORef {
    /// The reference to an interface of a node.
    pub fn new(node: Name, interface: Name) -> (r: NodeIORef)
        ensures
            r.node_key() == node@,
            r.interface_key() == interface@,
    {
        NodeIORef { node, interface }
    }

    /// The key of the node.
    pub closed spec fn node_key(&self) -> Seq<char> {
        self.node@
    }

    /// The key of the interface.
    pub closed spec fn interface_key(&self) -> Seq<char> {
        self.interface@
    }

    /// The node referred to.
    pub fn node(&self) -> (n: Name)
        ensures
            n@ == self.node_key(),
    {
        self.node.duplicate()
    }

    /// The interface referred to.
    pub fn interface(&self) -> (n: Name)
        ensures
            n@ == self.interface_key(),
    {
        self.interface.duplicate()
    }
}

/// A view on an interface of a node.
#[derive(Debug, Clone, PartialEq)]
pub struct NodeIOView {
    reference: NodeIORef,
}

impl NodeIOView {
    /// The view of a reference.
    pub fn new(reference: NodeIORef) -> (v: NodeIOView)
        ensures
            v.reference_of() == reference,
    {
        NodeIOView { reference }
    }

    /// The reference behind the view.
    pub closed spec fn reference_of(&self) -> NodeIORef {
        self.reference
    }

    /// The key of the view: `node.interface`.
    pub fn key(&self) -> (s: String)
        ensures
            s@ == self.reference_of().node_key() + "."@ + self.reference_of().interface_key(),
    {
        let mut s = String::new();
        s.append(self.reference.node.as_str());
        s.append(".");
        s.append(self.reference.interface.as_str());
        s
    }

    /// The reference behind the view.
    pub fn to_ref(&self) -> (r: NodeIORef)
        ensures
            r.node_key() == self.reference_of().node_key(),
            r.interface_key() == self.reference_of().interface_key(),
    {
        NodeIORef::new(self.reference.node(), self.reference.interface())
    }
}

/// An instance of a streamlet in a structural implementation.
#[derive(Debug, Clone, PartialEq)]
pub struct StreamletInst {
    key: Name,
    streamlet: StreamletRef,
}

impl StreamletInst {
    /// An instance with a key of a streamlet.
    pub fn new(key: Name, streamlet: StreamletRef) -> (i: StreamletInst)
        ensures
            i.key_of() == key@,
            i.library_of() == streamlet.library.library@,
            i.streamlet_of() == streamlet.streamlet@,
    {
        StreamletInst { key, streamlet }
    }

    /// The key of the instance.
    pub closed spec fn key_of(&self) -> Seq<char> {
        self.key@
    }

    /// The library of the instantiated streamlet.
    pub closed spec fn library_of(&self) -> Seq<char> {
        self.streamlet.library.library@
    }

    /// The name of the instantiated streamlet.
    pub closed spec fn streamlet_of(&self) -> Seq<char> {
        self.streamlet.streamlet@
    }

    /// The key of the instance.
    pub fn key(&self) -> (n: Name)
        ensures
            n@ == self.key_of(),
    {
        self.key.duplicate()
    }

    /// The streamlet that this is an instance of.
    pub fn streamlet(&self) -> (r: StreamletRef)
        ensures
            r.library.library@ == self.library_of(),
            r.streamlet@ == self.streamlet_of(),
    {
        self.streamlet.duplicate()
    }

    /// The text of the instance: `key : library::streamlet`.
    pub fn to_text(&self) -> (s: String)
        ensures
            s@ == self.key_of() + " : "@ + self.library_of() + "::"@ + self.streamlet_of(),
    {
        let mut s = String::new();
        s.append(self.key.as_str());
        s.append(" : ");
        let t = self.streamlet.to_text();
        s.append(t.as_str());
        s
    }
}

} // verus!
