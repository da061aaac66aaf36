//! Streamlets and their interfaces.

use vstd::prelude::*;
use crate::error::{Error, Result};
use crate::logical::{LogicalModel, LogicalStreamType};
use crate::name::Name;
use crate::phys::opt_view;
use crate::text::{push_char, same_text};

verus! {

/// The double quote character.
pub const QUOTE: char = '\u{22}';

/// Streamlet interface mode.
#[derive(Debug, Clone, Copy, PartialEq, Eq, Structural)]
pub enum Mode {
    /// The interface is an output of the streamlet.
    Out,
    /// The interface is an input of the streamlet.
    In,
}

/// The other mode.
pub open spec fn flip_mode(m: Mode) -> Mode {
    match m {
        Mode::Out => Mode::In,
        Mode::In => Mode::Out,
    }
}

impl Mode {
    /// Reverses this mode.
    pub fn reverse(&mut self)
        ensures
            *final(self) == flip_mode(*old(self)),
    {
        *self = match self {
            Mode::Out => Mode::In,
            Mode::In => Mode::Out,
        };
    }

    /// This mode, reversed.
    pub fn reversed(self) -> (m: Mode)
        ensures
            m == flip_mode(self),
    {
        let mut m = self;
        m.reverse();
        m
    }

    /// The mode written `in` or `out`; fails for any other text.
    pub fn from_text(input: &str) -> (r: Result<Mode>)
        ensures
            input@ == "in"@ ==> r == Ok::<Mode, Error>(Mode::In),
            input@ == "out"@ ==> r == Ok::<Mode, Error>(Mode::Out),
            input@ != "in"@ && input@ != "out"@ ==> (r matches Err(Error::InvalidArgument(m))
                && m@ == input@ + " is not a valid interface Mode. Expected "@ + seq![QUOTE] + "in"@
                    + seq![QUOTE] + " or "@ + seq![QUOTE] + "out"@ + seq![QUOTE]),
    {
        proof {
            reveal_strlit("in");
            reveal_strlit("out");
            assert("in"@.len() != "out"@.len());
        }
        if same_text(input, "in") {
            Ok(Mode::In)
        } else if same_text(input, "out") {
            Ok(Mode::Out)
        } else {
            let mut t = String::new();
            t.append(input);
            t.append(" is not a valid interface Mode. Expected ");
            push_char(&mut t, QUOTE);
            t.append("in");
            push_char(&mut t, QUOTE);
            t.append(" or ");
            push_char(&mut t, QUOTE);
            t.append("out");
            push_char(&mut t, QUOTE);
            Err(Error::InvalidArgument(t))
        }
    }
}

/// Reversing a mode twice gives it back, and reversing changes it.
pub proof fn lemma_mode_reverse_twice(m: Mode)
    ensures
        flip_mode(flip_mode(m)) == m,
        flip_mode(m) != m,
{
}

/// A streamlet interface. The names `clk` and `rst` are reserved.
#[derive(Debug, PartialEq)]
pub struct Interface {
    name: Name,
    mode: Mode,
    typ: LogicalStreamType,
    doc: Option<String>,
}

/// The mathematical shape of an interface.
pub struct InterfaceModel {
    pub name: Seq<char>,
    pub mode: Mode,
    pub typ: LogicalModel,
    pub doc: Option<Seq<char>>,
}

impl View for Interface {
    type V = InterfaceModel;

    closed spec fn view(&self) -> InterfaceModel {
        InterfaceModel { name: self.name@, mode: self.mode, typ: self.typ@, doc: opt_view(self.doc) }
    }
}

/// Whether a name is reserved for interfaces.
pub open spec fn is_reserved_name(n: Seq<char>) -> bool {
    n == "clk"@ || n == "rst"@
}

/// The text of an optional string slice.
pub open spec fn opt_str_view(d: Option<&str>) -> Option<Seq<char>> {
    match d {
        Some(s) => Some(s@),
        None => None,
    }
}

fn owned_doc(doc: Option<&str>) -> (r: Option<String>)
    ensures
        opt_view(r) == opt_str_view(doc),
{
    match doc {
        Some(d) => Some(d.to_owned()),
        None => None,
    }
}

impl Interface {
    /// An interface; fails with `InterfaceError` for a reserved name.
    pub fn try_new(name: Name, mode: Mode, typ: LogicalStreamType, doc: Option<&str>) -> (r: Result<Interface>)
        ensures
            !is_reserved_name(name@) ==> (r matches Ok(i) && i@ == (InterfaceModel {
                name: name@,
                mode,
                typ: typ@,
                doc: opt_str_view(doc),
            })),
            is_reserved_name(name@) ==> (r matches Err(Error::InterfaceError(m))
                && m@ == "Name "@ + name@ + " forbidden."@),
    {
        let clk = same_text(name.as_str(), "clk");
        let rst = same_text(name.as_str(), "rst");
        if clk || rst {
            let mut m = String::from_str("Name ");
            m.append(name.as_str());
            m.append(" forbidden.");
            Err(Error::InterfaceError(m))
        } else {
            Ok(Interface { name, mode, typ, doc: owned_doc(doc) })
        }
    }

    /// This interface with the given documentation.
    pub fn with_doc(self, doc: &str) -> (i: Interface)
        ensures
            i@ == (InterfaceModel { doc: Some(doc@), ..self@ }),
    {
        Interface { doc: Some(doc.to_owned()), ..self }
    }

    /// The mode of the interface.
    pub fn mode(&self) -> (m: Mode)
        ensures
            m == self@.mode,
    {
        self.mode
    }

    /// The type of the interface.
    pub fn typ(&self) -> (t: &LogicalStreamType)
        ensures
            t@ == self@.typ,
    {
        &self.typ
    }

    /// The name of the interface.
    pub fn identifier(&self) -> (s: &str)
        ensures
            s@ == self@.name,
    {
        self.name.as_str()
    }

    /// The key of the interface: its name.
    pub fn key(&self) -> (k: &Name)
        ensures
            k@ == self@.name,
    {
        &self.name
    }

    /// The documentation of the interface.
    pub fn doc(&self) -> (d: Option<String>)
        ensures
            opt_view(d) == self@.doc,
    {
        match &self.doc {
            Some(d) => Some(d.clone()),
            None => None,
        }
    }

    /// A copy of the interface.
    pub fn duplicate(&self) -> (i: Interface)
        ensures
            i@ == self@,
    {
        Interface { name: self.name.duplicate(), mode: self.mode, typ: self.typ.duplicate(), doc: self.doc() }
    }

    /// Reverses the mode of the interface.
    pub fn reverse(&mut self)
        ensures
            final(self)@ == (InterfaceModel { mode: flip_mode(old(self)@.mode), ..old(self)@ }),
    {
        self.mode.reverse();
    }

    /// This interface in the other mode.
    pub fn reversed(self) -> (i: Interface)
        ensures
            i@ == (InterfaceModel { mode: flip_mode(self@.mode), ..self@ }),
    {
        let mut i = self;
        i.reverse();
        i
    }
}

/// A streamlet: a component with named interfaces.
#[derive(Debug, PartialEq)]
pub struct Streamlet {
    name: Name,
    interfaces: Vec<Interface>,
    doc: Option<String>,
}

/// The mathematical shape of a streamlet.
pub struct StreamletModel {
    pub name: Seq<char>,
    pub interfaces: Seq<InterfaceModel>,
    pub doc: Option<Seq<char>>,
}

/// The shapes of interfaces.
pub open spec fn interface_models(s: Seq<Interface>) -> Seq<InterfaceModel> {
    s.map_values(|i: Interface| i@)
}

impl View for Streamlet {
    type V = StreamletModel;

    closed spec fn view(&self) -> StreamletModel {
        StreamletModel { name: self.name@, interfaces: interface_models(self.interfaces@), doc: opt_view(self.doc) }
    }
}

/// Whether two interfaces share a name.
pub open spec fn has_duplicate_interface(s: Seq<InterfaceModel>) -> bool {
    exists|i: int, j: int| 0 <= i < j < s.len() && #[trigger] s[i].name == #[trigger] s[j].name
}

impl Streamlet {
    /// A streamlet with the given interfaces; fails when two of them share
    /// a name.
    pub fn from_builder(name: Name, interfaces: Vec<Interface>, doc: Option<&str>) -> (r: Result<Streamlet>)
        ensures
            !has_duplicate_interface(interface_models(interfaces@)) ==> (r matches Ok(s) && s@ == (StreamletModel {
                name: name@,
                interfaces: interface_models(interfaces@),
                doc: opt_str_view(doc),
            })),
            has_duplicate_interface(interface_models(interfaces@)) ==> (r matches Err(Error::UnexpectedDuplicate)),
    {
        let ghost m = interface_models(interfaces@);
        let mut j: usize = 0;
        while j < interfaces.len()
            invariant
                j <= interfaces@.len(),
                m == interface_models(interfaces@),
                forall|a: int, b: int| 0 <= a < b < j ==> m[a].name != m[b].name,
            decreases interfaces@.len() - j,
        {
            let mut i: usize = 0;
            while i < j
                invariant
                    i <= j < interfaces@.len(),
                    m == interface_models(interfaces@),
                    forall|a: int, b: int| 0 <= a < b < j ==> m[a].name != m[b].name,
                    forall|a: int| 0 <= a < i ==> m[a].name != m[j as int].name,
                decreases j - i,
            {
                if interfaces[i].name.same(&interfaces[j].name) {
                    assert(m[i as int].name == m[j as int].name);
                    assert(has_duplicate_interface(m));
                    return Err(Error::UnexpectedDuplicate);
                }
                i = i + 1;
            }
            j = j + 1;
        }
        Ok(Streamlet { name, interfaces, doc: owned_doc(doc) })
    }

    /// This streamlet with the given documentation.
    pub fn with_doc(self, doc: &str) -> (s: Streamlet)
        ensures
            s@ == (StreamletModel { doc: Some(doc@), ..self@ }),
    {
        Streamlet { doc: Some(doc.to_owned()), ..self }
    }

    /// The interfaces of the streamlet.
    pub fn interfaces(&self) -> (v: &Vec<Interface>)
        ensures
            interface_models(v@) == self@.interfaces,
    {
        &self.interfaces
    }

    /// The key of the streamlet: its name.
    pub fn key(&self) -> (k: &Name)
        ensures
            k@ == self@.name,
    {
        &self.name
    }

    /// The name of the streamlet.
    pub fn identifier(&self) -> (s: &str)
        ensures
            s@ == self@.name,
    {
        self.name.as_str()
    }

    /// The documentation of the streamlet.
    pub fn doc(&self) -> (d: Option<String>)
        ensures
            opt_view(d) == self@.doc,
    {
        match &self.doc {
            Some(d) => Some(d.clone()),
            None => None,
        }
    }

    /// The interface with a name; fails with an `InterfaceError` where
    /// there is none.
    pub fn get_interface(&self, key: &Name) -> (r: Result<&Interface>)
        ensures
            find_interface(self@.interfaces, key@) matches Some(i) ==> (r matches Ok(x) && x@ == i),
            find_interface(self@.interfaces, key@) is None ==> (r matches Err(Error::InterfaceError(m))
                && m@ == "Interface "@ + key@ + " does not exist for streamlet "@ + self@.name + "."@),
    {
        let ghost m = interface_models(self.interfaces@);
        let mut i: usize = self.interfaces.len();
        assert(m.take(i as int) =~= m);
        while i > 0
            invariant
                i <= self.interfaces@.len(),
                m == interface_models(self.interfaces@),
                find_interface(m, key@) == find_interface(m.take(i as int), key@),
            decreases i,
        {
            proof {
                assert(m.take(i as int).last() == self.interfaces@[i - 1]@);
                assert(m.take(i as int).drop_last() =~= m.take(i - 1));
            }
            if self.interfaces[i - 1].name.same(key) {
                return Ok(&self.interfaces[i - 1]);
            }
            i = i - 1;
        }
        let mut t = String::from_str("Interface ");
        t.append(key.as_str());
        t.append(" does not exist for streamlet ");
        t.append(self.name.as_str());
        t.append(".");
        Err(Error::InterfaceError(t))
    }
}

/// The interface with a name, the last one where several have it.
pub open spec fn find_interface(s: Seq<InterfaceModel>, key: Seq<char>) -> Option<InterfaceModel>
    decreases s.len(),
{
    if s.len() == 0 {
        None
    } else if s.last().name == key {
        Some(s.last())
    } else {
        find_interface(s.drop_last(), key)
    }
}

} // verus!
