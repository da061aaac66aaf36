//! Structural implementations of streamlets: instances of streamlets and
//! the connections between their interfaces.

use vstd::prelude::*;
use indexmap::IndexMap;
use crate::design::{find_interface, flip_mode, Interface, InterfaceModel, Mode, StreamletModel};
use crate::error::{Error, Result};
use crate::library::{has_library, has_streamlet, missing_library_message, Project, StreamletHandle};
use crate::logical::model_same;
use crate::name::Name;
use crate::refs::{NodeIORef, StreamletInst, StreamletRef};

verus! {

/// The shape of a node: whether it stands for the implemented streamlet
/// itself, its key, and the library and name of its streamlet.
pub struct NodeModel {
    pub this: bool,
    pub key: Seq<char>,
    pub library: Seq<char>,
    pub streamlet: Seq<char>,
}

/// A node of a structural implementation.
#[derive(Debug, PartialEq)]
pub enum Node {
    /// The implemented streamlet itself, seen from inside.
    This(StreamletInst),
    /// An instance of a streamlet.
    Streamlet(StreamletInst),
}

/// The shape of a node.
pub open spec fn node_model(n: Node) -> NodeModel {
    match n {
        Node::This(s) => NodeModel { this: true, key: "this"@, library: s.library_of(), streamlet: s.streamlet_of() },
        Node::Streamlet(s) => NodeModel { this: false, key: s.key_of(), library: s.library_of(), streamlet: s.streamlet_of() },
    }
}

/// The entries of a node map, in their order.
pub uninterp spec fn node_entries(m: IndexMap<String, Node>) -> Seq<(Seq<char>, Node)>;

/// Whether an entry with this key is in the entries.
pub open spec fn has_node_key(entries: Seq<(Seq<char>, Node)>, k: Seq<char>) -> bool {
    exists|i: int| 0 <= i < entries.len() && (#[trigger] entries[i]).0 == k
}

/// `IndexMap::new`: a map without entries.
#[verifier::external_body]
fn node_map_new() -> (m: IndexMap<String, Node>)
    ensures
        node_entries(m) == Seq::<(Seq<char>, Node)>::empty(),
{
    IndexMap::new()
}

/// `IndexMap::insert` of a key that is not in the map: the entry goes
/// last.
#[verifier::external_body]
fn node_map_insert(m: &mut IndexMap<String, Node>, k: String, v: Node) -> (old_value: Option<Node>)
    requires
        !has_node_key(node_entries(*old(m)), k@),
    ensures
        old_value is None,
        node_entries(*final(m)) == node_entries(*old(m)).push((k@, v)),
{
    m.insert(k, v)
}

/// `IndexMap::get`: the value of an entry with the key, if there is one.
#[verifier::external_body]
fn node_map_get<'a>(m: &'a IndexMap<String, Node>, k: &str) -> (r: Option<&'a Node>)
    ensures
        r is Some <==> has_node_key(node_entries(*m), k@),
        r matches Some(v) ==> exists|i: int| 0 <= i < node_entries(*m).len()
            && (#[trigger] node_entries(*m)[i]).0 == k@ && node_entries(*m)[i].1 == *v,
{
    m.get(k)
}

/// `IndexMap::len`: the number of entries.
#[verifier::external_body]
fn node_map_len(m: &IndexMap<String, Node>) -> (n: usize)
    ensures
        n == node_entries(*m).len(),
{
    m.len()
}

/// `IndexMap::get_index`: the entry at a position, if there is one.
#[verifier::external_body]
fn node_map_get_index(m: &IndexMap<String, Node>, i: usize) -> (r: Option<(&String, &Node)>)
    ensures
        r is Some <==> i < node_entries(*m).len(),
        r matches Some(e) ==> e.0@ == node_entries(*m)[i as int].0 && *e.1 == node_entries(*m)[i as int].1,
{
    m.get_index(i)
}

impl Node {
    /// The key of the node: `this` for the implemented streamlet itself.
    pub fn key(&self) -> (k: Name)
        ensures
            k@ == node_model(*self).key,
    {
        match self {
            Node::This(_) => Name::this(),
            Node::Streamlet(s) => s.key(),
        }
    }

    /// A copy of the node.
    pub fn duplicate(&self) -> (n: Node)
        ensures
            node_model(n) == node_model(*self),
    {
        match self {
            Node::This(s) => Node::This(StreamletInst::new(s.key(), s.streamlet())),
            Node::Streamlet(s) => Node::Streamlet(StreamletInst::new(s.key(), s.streamlet())),
        }
    }

    /// The instance behind the node.
    fn instance(&self) -> (s: &StreamletInst)
        ensures
            s.library_of() == node_model(*self).library,
            s.streamlet_of() == node_model(*self).streamlet,
    {
        match self {
            Node::This(s) => s,
            Node::Streamlet(s) => s,
        }
    }
}

/// The reference to an interface of a node.
pub trait Interfaces {
    /// The reference to the interface `key` of this node; fails where the
    /// key is not a valid name.
    fn io(&self, key: &str) -> Result<NodeIORef>;
}

impl Interfaces for Node {
    fn io(&self, key: &str) -> (r: Result<NodeIORef>)
        ensures
            crate::name::is_valid_name(key@) ==> (r matches Ok(x)
                && x.node_key() == node_model(*self).key && x.interface_key() == key@),
            !crate::name::is_valid_name(key@) ==> (r matches Err(Error::InvalidArgument(m))
                && m@ == crate::name::name_refusal(key@)),
    {
        let k = Name::try_new(key)?;
        Ok(NodeIORef::new(self.key(), k))
    }
}

/// The shape of a reference to an interface of a node: the node's key and
/// the interface's key.
pub open spec fn io_model(r: NodeIORef) -> (Seq<char>, Seq<char>) {
    (r.node_key(), r.interface_key())
}

/// A directed connection from an interface of a node to an interface of
/// another.
#[derive(Debug, PartialEq)]
pub struct Edge {
    source: NodeIORef,
    sink: NodeIORef,
}

/// The shape of a connection: its source and its sink.
pub closed spec fn edge_model(e: Edge) -> ((Seq<char>, Seq<char>), (Seq<char>, Seq<char>)) {
    (io_model(e.source), io_model(e.sink))
}

/// The shapes of connections.
pub open spec fn edge_models(s: Seq<Edge>) -> Seq<((Seq<char>, Seq<char>), (Seq<char>, Seq<char>))> {
    s.map_values(|e: Edge| edge_model(e))
}

fn copy_ref(r: &NodeIORef) -> (c: NodeIORef)
    ensures
        io_model(c) == io_model(*r),
{
    NodeIORef::new(r.node(), r.interface())
}

fn same_ref(a: &NodeIORef, b: &NodeIORef) -> (r: bool)
    ensures
        r == (io_model(*a) == io_model(*b)),
{
    a.node().same(&b.node()) && a.interface().same(&b.interface())
}

impl Edge {
    /// The sourcing interface of the connection.
    pub fn source(&self) -> (r: NodeIORef)
        ensures
            io_model(r) == edge_model(*self).0,
    {
        copy_ref(&self.source)
    }

    /// The sinking interface of the connection.
    pub fn sink(&self) -> (r: NodeIORef)
        ensures
            io_model(r) == edge_model(*self).1,
    {
        copy_ref(&self.sink)
    }
}

/// Whether an interface is an end of one of the connections.
pub open spec fn is_connected(edges: Seq<((Seq<char>, Seq<char>), (Seq<char>, Seq<char>))>, r: (Seq<char>, Seq<char>)) -> bool {
    exists|i: int| 0 <= i < edges.len() && ((#[trigger] edges[i]).1 == r || edges[i].0 == r)
}

/// Whether no two entries share a key.
pub open spec fn node_keys_unique(e: Seq<(Seq<char>, Node)>) -> bool {
    forall|i: int, j: int| 0 <= i < j < e.len() ==> (#[trigger] e[i]).0 != (#[trigger] e[j]).0
}

/// The node with a key, if any.
pub open spec fn find_node(e: Seq<(Seq<char>, Node)>, k: Seq<char>) -> Option<Node>
    decreases e.len(),
{
    if e.len() == 0 {
        None
    } else if e.last().0 == k {
        Some(e.last().1)
    } else {
        find_node(e.drop_last(), k)
    }
}

/// With keys that do not repeat, the node with a key is the value of the
/// entry with that key.
proof fn lemma_find_node(e: Seq<(Seq<char>, Node)>, i: int)
    requires
        node_keys_unique(e),
        0 <= i < e.len(),
    ensures
        find_node(e, e[i].0) == Some(e[i].1),
    decreases e.len(),
{
    if i < e.len() - 1 {
        assert(e.last().0 != e[i].0);
        lemma_find_node(e.drop_last(), i);
    }
}

/// Without an entry with a key, there is no node with it.
proof fn lemma_find_node_none(e: Seq<(Seq<char>, Node)>, k: Seq<char>)
    requires
        !has_node_key(e, k),
    ensures
        find_node(e, k) is None,
    decreases e.len(),
{
    if e.len() > 0 {
        assert(e.last() == e[e.len() - 1]);
        assert(e.drop_last().len() == e.len() - 1);
        assert forall|i: int| 0 <= i < e.drop_last().len() implies (#[trigger] e.drop_last()[i]).0 != k by {
            assert(e.drop_last()[i] == e[i]);
        }
        lemma_find_node_none(e.drop_last(), k);
    }
}

/// What looking up an interface of a node comes to.
pub enum Lookup {
    /// The interface, as seen from the node.
    Found(InterfaceModel),
    /// There is no such node.
    NoNode,
    /// The library of the node's streamlet is missing.
    NoLibrary(Seq<char>),
    /// The node's streamlet is missing from its library.
    NoStreamlet(Seq<char>, Seq<char>),
    /// The streamlet has no such interface.
    NoInterface(Seq<char>, Seq<char>),
}

/// Whether a streamlet with a name is in the library with a key.
pub open spec fn is_streamlet_of(p: Project, lib: Seq<char>, name: Seq<char>, m: StreamletModel) -> bool {
    m.name == name && exists|i: int, j: int| 0 <= i < p.entries().len() && p.entries()[i].key_of() == lib
        && 0 <= j < p.entries()[i].entries().len() && #[trigger] p.entries()[i].entries()[j] == m
}

/// The streamlet with a name in the library with a key.
pub open spec fn the_streamlet(p: Project, lib: Seq<char>, name: Seq<char>) -> StreamletModel {
    choose|m: StreamletModel| #[trigger] is_streamlet_of(p, lib, name, m)
}

/// An interface of a node's streamlet; the node standing for the
/// implemented streamlet sees it in the other mode.
pub open spec fn node_interface(p: Project, n: NodeModel, key: Seq<char>) -> Lookup {
    if !has_library(p.entries(), n.library) {
        Lookup::NoLibrary(n.library)
    } else if !has_streamlet(p.entries(), n.library, n.streamlet) {
        Lookup::NoStreamlet(n.library, n.streamlet)
    } else {
        match find_interface(the_streamlet(p, n.library, n.streamlet).interfaces, key) {
            None => Lookup::NoInterface(key, n.streamlet),
            Some(i) => Lookup::Found(if n.this { InterfaceModel { mode: flip_mode(i.mode), ..i } } else { i }),
        }
    }
}

/// An interface of a node of an implementation.
pub open spec fn lookup(p: Project, e: Seq<(Seq<char>, Node)>, r: (Seq<char>, Seq<char>)) -> Lookup {
    match find_node(e, r.0) {
        None => Lookup::NoNode,
        Some(n) => node_interface(p, node_model(n), r.1),
    }
}

/// The error of an operation, by kind and message, or the error it was
/// handed.
pub enum Failure {
    Given(Error),
    Composer(Seq<char>),
    Project(Seq<char>),
    Interface(Seq<char>),
}

/// Whether an error is the given failure.
pub open spec fn fails_with(e: Error, f: Failure) -> bool {
    match f {
        Failure::Given(x) => e == x,
        Failure::Composer(m) => e matches Error::ComposerError(t) && t@ == m,
        Failure::Project(m) => e matches Error::ProjectError(t) && t@ == m,
        Failure::Interface(m) => e matches Error::InterfaceError(t) && t@ == m,
    }
}

/// The text of a reference to a library's streamlet: `library::streamlet`.
pub open spec fn streamlet_text(s: (Seq<char>, Seq<char>)) -> Seq<char> {
    s.0 + "::"@ + s.1
}

/// The text of a reference to an interface of a node: `node.interface`.
pub open spec fn io_text(r: (Seq<char>, Seq<char>)) -> Seq<char> {
    r.0 + "."@ + r.1
}

/// The failure of a lookup, if it failed.
pub open spec fn lookup_failure(l: Lookup, streamlet: (Seq<char>, Seq<char>), r: (Seq<char>, Seq<char>)) -> Option<Failure> {
    match l {
        Lookup::Found(_) => None,
        Lookup::NoNode => Some(Failure::Composer("Structural implementation of streamlet "@ + streamlet_text(streamlet)
            + " has no node named "@ + r.0 + "."@)),
        Lookup::NoLibrary(lib) => Some(Failure::Project(missing_library_message(lib))),
        Lookup::NoStreamlet(lib, name) => Some(Failure::Project("Streamlet "@ + name + " not found in library "@ + lib)),
        Lookup::NoInterface(key, name) => Some(Failure::Interface("Interface "@ + key + " does not exist for streamlet "@
            + name + "."@)),
    }
}

/// The first failure of connecting a sink to a source, if any: a given
/// error, a failed lookup of the sink and then of the source, a source
/// that is no output, a sink that is no input, types that differ, or an
/// end that is already connected.
pub open spec fn connect_failure(
    p: Project,
    e: Seq<(Seq<char>, Node)>,
    streamlet: (Seq<char>, Seq<char>),
    edges: Seq<((Seq<char>, Seq<char>), (Seq<char>, Seq<char>))>,
    sink: core::result::Result<NodeIORef, Error>,
    source: core::result::Result<NodeIORef, Error>,
) -> Option<Failure> {
    match sink {
        Err(x) => Some(Failure::Given(x)),
        Ok(sk) => match source {
            Err(x) => Some(Failure::Given(x)),
            Ok(sc) => {
                let (snk, src) = (io_model(sk), io_model(sc));
                match lookup(p, e, snk) {
                    Lookup::Found(si) => match lookup(p, e, src) {
                        Lookup::Found(ci) => if ci.mode != Mode::Out {
                            Some(Failure::Composer("Attempting to connect "@ + io_text(src)
                                + " as source, but interface is not an output."@))
                        } else if si.mode != Mode::In {
                            Some(Failure::Composer("Attempting to connect "@ + io_text(src)
                                + " as sink, but interface is not an input."@))
                        } else if !model_same(ci.typ, si.typ) {
                            Some(Failure::Composer("Types of sink "@ + io_text(snk) + " and of source "@ + io_text(src)
                                + " are incompatible."@))
                        } else if is_connected(edges, src) {
                            Some(Failure::Composer("Cannot connect sink "@ + io_text(snk) + " to source "@ + io_text(src)
                                + ", source is already connected."@))
                        } else if is_connected(edges, snk) {
                            Some(Failure::Composer("Cannot connect sink "@ + io_text(snk) + " to source "@ + io_text(src)
                                + ", sink is already connected."@))
                        } else {
                            None
                        },
                        l => lookup_failure(l, streamlet, src),
                    },
                    l => lookup_failure(l, streamlet, snk),
                }
            },
        },
    }
}

impl Node {
    /// The interface `key` of the node's streamlet in a project; the node
    /// standing for the implemented streamlet sees it in the other mode.
    fn get_interface(&self, project: &Project, key: &Name) -> (r: Result<Interface>)
        ensures
            match node_interface(*project, node_model(*self), key@) {
                Lookup::Found(m) => r matches Ok(x) && x@ == m,
                l => r matches Err(x) && lookup_failure(l, (Seq::empty(), Seq::empty()), (Seq::empty(), key@)) matches Some(f)
                    && fails_with(x, f),
            },
    {
        let inst = self.instance();
        let sref = inst.streamlet();
        let handle = StreamletHandle { lib: sref.library.library, streamlet: sref.streamlet };
        let s = project.get_streamlet(&handle)?;
        proof {
            let lib = node_model(*self).library;
            let name = node_model(*self).streamlet;
            let (i, j) = choose|i: int, j: int| 0 <= i < project.entries().len() && project.entries()[i].key_of() == lib
                && 0 <= j < project.entries()[i].entries().len() && #[trigger] project.entries()[i].entries()[j].name == name;
            assert(project.entries()[i].entries()[j] == s@);
            assert(is_streamlet_of(*project, lib, name, s@));
            let m = the_streamlet(*project, lib, name);
            assert(is_streamlet_of(*project, lib, name, m));
            let (a, b) = choose|a: int, b: int| 0 <= a < project.entries().len() && project.entries()[a].key_of() == lib
                && 0 <= b < project.entries()[a].entries().len() && #[trigger] project.entries()[a].entries()[b] == m;
            assert(project.entries()[a].entries()[b].name == name);
            assert(m == s@);
        }
        let i = s.get_interface(key)?;
        match self {
            Node::This(_) => Ok(i.duplicate().reversed()),
            Node::Streamlet(_) => Ok(i.duplicate()),
        }
    }
}

impl StreamletInst {
    /// The interface `key` of the instantiated streamlet in a project; fails
    /// where the library, the streamlet or the interface is missing.
    pub fn get_interface(&self, project: &Project, key: &Name) -> (r: Result<Interface>)
        ensures
            match node_interface(*project, node_model(Node::Streamlet(*self)), key@) {
                Lookup::Found(m) => r matches Ok(x) && x@ == m,
                l => r matches Err(x) && lookup_failure(l, (Seq::empty(), Seq::empty()), (Seq::empty(), key@)) matches Some(f)
                    && fails_with(x, f),
            },
    {
        let sref = self.streamlet();
        let handle = StreamletHandle { lib: sref.library.library, streamlet: sref.streamlet };
        let s = project.get_streamlet(&handle)?;
        proof {
            let lib = self.library_of();
            let name = self.streamlet_of();
            let (i, j) = choose|i: int, j: int| 0 <= i < project.entries().len() && project.entries()[i].key_of() == lib
                && 0 <= j < project.entries()[i].entries().len() && #[trigger] project.entries()[i].entries()[j].name == name;
            assert(project.entries()[i].entries()[j] == s@);
            assert(is_streamlet_of(*project, lib, name, s@));
            let m = the_streamlet(*project, lib, name);
            assert(is_streamlet_of(*project, lib, name, m));
            let (a, b) = choose|a: int, b: int| 0 <= a < project.entries().len() && project.entries()[a].key_of() == lib
                && 0 <= b < project.entries()[a].entries().len() && #[trigger] project.entries()[a].entries()[b] == m;
            assert(project.entries()[a].entries()[b].name == name);
            assert(m == s@);
        }
        let i = s.get_interface(key)?;
        Ok(i.duplicate())
    }
}

/// A structural implementation of a streamlet: the instances of streamlets
/// in it (nodes), among them the streamlet itself under the key `this`,
/// and the connections between their interfaces (edges).
#[derive(Debug)]
pub struct StructuralImpl {
    streamlet: StreamletRef,
    nodes: IndexMap<String, Node>,
    edges: Vec<Edge>,
}

impl StructuralImpl {
    /// The keys of the nodes do not repeat, each is the key of its node,
    /// and `this` is there, as the only node that stands for the
    /// implemented streamlet.
    #[verifier::type_invariant]
    spec fn well_formed(self) -> bool {
        let e = node_entries(self.nodes);
        &&& node_keys_unique(e)
        &&& has_node_key(e, "this"@)
        &&& forall|i: int| 0 <= i < e.len() ==> (#[trigger] e[i]).0 == node_model(e[i].1).key
            && (node_model(e[i].1).this <==> e[i].0 == "this"@)
    }

    /// The library and the name of the implemented streamlet.
    pub closed spec fn streamlet_of(&self) -> (Seq<char>, Seq<char>) {
        (self.streamlet.library.library@, self.streamlet.streamlet@)
    }

    /// The nodes, under their keys, in the order in which they came.
    pub closed spec fn nodes_of(&self) -> Seq<(Seq<char>, Node)> {
        node_entries(self.nodes)
    }

    /// The connections, in the order in which they were made.
    pub closed spec fn edges_of(&self) -> Seq<((Seq<char>, Seq<char>), (Seq<char>, Seq<char>))> {
        edge_models(self.edges@)
    }

    /// The implemented streamlet.
    pub fn streamlet(&self) -> (r: StreamletRef)
        ensures
            (r.library.library@, r.streamlet@) == self.streamlet_of(),
    {
        self.streamlet.duplicate()
    }

    /// The nodes, in the order in which they came.
    pub fn nodes(&self) -> (v: Vec<Node>)
        ensures
            v@.len() == self.nodes_of().len(),
            forall|i: int| 0 <= i < v@.len() ==> node_model(#[trigger] v@[i]) == node_model(self.nodes_of()[i].1),
    {
        let n = node_map_len(&self.nodes);
        let mut v: Vec<Node> = Vec::new();
        let mut i: usize = 0;
        while i < n
            invariant
                i <= n,
                n == self.nodes_of().len(),
                v@.len() == i,
                forall|k: int| 0 <= k < i ==> node_model(#[trigger] v@[k]) == node_model(self.nodes_of()[k].1),
            decreases n - i,
        {
            match node_map_get_index(&self.nodes, i) {
                Some((_, node)) => v.push(node.duplicate()),
                None => {},
            }
            i = i + 1;
        }
        v
    }

    /// The connections, in the order in which they were made.
    pub fn edges(&self) -> (v: &Vec<Edge>)
        ensures
            edge_models(v@) == self.edges_of(),
    {
        &self.edges
    }

    fn node_ref(&self, key: &Name) -> (r: Result<&Node>)
        ensures
            find_node(self.nodes_of(), key@) matches Some(n) ==> (r matches Ok(x) && node_model(*x) == node_model(n)),
            find_node(self.nodes_of(), key@) is None ==> (r matches Err(Error::ComposerError(m))
                && m@ == "Structural implementation of streamlet "@ + streamlet_text(self.streamlet_of())
                    + " has no node named "@ + key@ + "."@),
    {
        proof { use_type_invariant(self); }
        match node_map_get(&self.nodes, key.as_str()) {
            Some(n) => {
                proof {
                    let i = choose|i: int| 0 <= i < self.nodes_of().len()
                        && (#[trigger] self.nodes_of()[i]).0 == key@ && self.nodes_of()[i].1 == *n;
                    lemma_find_node(self.nodes_of(), i);
                }
                Ok(n)
            },
            None => {
                proof { lemma_find_node_none(self.nodes_of(), key@); }
                let mut m = String::from_str("Structural implementation of streamlet ");
                let t = self.streamlet.to_text();
                m.append(t.as_str());
                m.append(" has no node named ");
                m.append(key.as_str());
                m.append(".");
                Err(Error::ComposerError(m))
            },
        }
    }

    /// The node with a key; fails with a `ComposerError` where there is
    /// none.
    pub fn node(&self, key: Name) -> (r: Result<Node>)
        ensures
            find_node(self.nodes_of(), key@) matches Some(n) ==> (r matches Ok(x) && node_model(x) == node_model(n)),
            find_node(self.nodes_of(), key@) is None ==> (r matches Err(Error::ComposerError(m))
                && m@ == "Structural implementation of streamlet "@ + streamlet_text(self.streamlet_of())
                    + " has no node named "@ + key@ + "."@),
    {
        let n = self.node_ref(&key)?;
        Ok(n.duplicate())
    }

    /// The first connection with an end at an interface, if any.
    pub fn get_edge(&self, io: &NodeIORef) -> (r: Option<&Edge>)
        ensures
            r is Some <==> is_connected(self.edges_of(), io_model(*io)),
            r matches Some(e) ==> (edge_model(*e).1 == io_model(*io) || edge_model(*e).0 == io_model(*io))
                && exists|i: int| 0 <= i < self.edges_of().len() && self.edges_of()[i] == edge_model(*e),
    {
        let ghost em = self.edges_of();
        let mut i: usize = 0;
        while i < self.edges.len()
            invariant
                i <= self.edges@.len(),
                em == edge_models(self.edges@),
                forall|k: int| 0 <= k < i ==> (#[trigger] em[k]).1 != io_model(*io) && em[k].0 != io_model(*io),
            decreases self.edges@.len() - i,
        {
            let e = &self.edges[i];
            if same_ref(&e.sink, io) || same_ref(&e.source, io) {
                assert(em[i as int] == edge_model(*e));
                return Some(e);
            }
            i = i + 1;
        }
        None
    }
}

/// A builder of the structural implementation of a streamlet of a
/// project, checking each step against the project.
pub struct StructuralImplBuilder<'p> {
    project: &'p Project,
    imp: StructuralImpl,
}

/// An implementation of a streamlet with only the node `this`.
fn only_this(streamlet: &StreamletRef) -> (imp: StructuralImpl)
    ensures
        imp.streamlet_of() == (streamlet.library.library@, streamlet.streamlet@),
        imp.nodes_of().len() == 1,
        imp.nodes_of()[0].0 == "this"@,
        node_model(imp.nodes_of()[0].1) == (NodeModel {
            this: true,
            key: "this"@,
            library: streamlet.library.library@,
            streamlet: streamlet.streamlet@,
        }),
        imp.edges_of().len() == 0,
{
    let mut nodes = node_map_new();
    let this = Node::This(StreamletInst::new(Name::this(), streamlet.duplicate()));
    node_map_insert(&mut nodes, String::from_str("this"), this);
    let edges: Vec<Edge> = Vec::new();
    assert(edge_models(edges@) =~= Seq::empty());
    proof {
        reveal_strlit("this");
        assert(node_entries(nodes)[0].0 == "this"@);
    }
    StructuralImpl { streamlet: streamlet.duplicate(), nodes, edges }
}

fn handle_of(r: &StreamletRef) -> (h: StreamletHandle)
    ensures
        h.lib@ == r.library.library@,
        h.streamlet@ == r.streamlet@,
{
    let d = r.duplicate();
    StreamletHandle { lib: d.library.library, streamlet: d.streamlet }
}

impl<'p> StructuralImplBuilder<'p> {
    /// The project that the implementation is checked against.
    pub closed spec fn project_of(&self) -> Project {
        *self.project
    }

    /// The implementation built so far.
    pub closed spec fn imp_of(&self) -> StructuralImpl {
        self.imp
    }

    /// A builder of an implementation of a streamlet, holding only the node
    /// `this`; fails where the project lacks the streamlet.
    pub fn try_new(project: &'p Project, streamlet: &StreamletRef) -> (r: Result<StructuralImplBuilder<'p>>)
        ensures
            has_streamlet(project.entries(), streamlet.library.library@, streamlet.streamlet@) ==> (r matches Ok(b)
                && b.project_of() == *project
                && b.imp_of().streamlet_of() == (streamlet.library.library@, streamlet.streamlet@)
                && b.imp_of().nodes_of().len() == 1
                && b.imp_of().nodes_of()[0].0 == "this"@
                && node_model(b.imp_of().nodes_of()[0].1) == (NodeModel {
                    this: true,
                    key: "this"@,
                    library: streamlet.library.library@,
                    streamlet: streamlet.streamlet@,
                })
                && b.imp_of().edges_of().len() == 0),
            has_library(project.entries(), streamlet.library.library@)
                && !has_streamlet(project.entries(), streamlet.library.library@, streamlet.streamlet@) ==> (
                r matches Err(Error::ProjectError(m))
                && m@ == "Streamlet "@ + streamlet.streamlet@ + " not found in library "@ + streamlet.library.library@),
            !has_library(project.entries(), streamlet.library.library@) ==> (r matches Err(Error::ProjectError(m))
                && m@ == missing_library_message(streamlet.library.library@)),
    {
        project.get_streamlet(&handle_of(streamlet))?;
        let imp = only_this(streamlet);
        Ok(StructuralImplBuilder { project, imp })
    }

    /// The implementation that was built.
    pub fn finish(self) -> (imp: StructuralImpl)
        ensures
            imp == self.imp_of(),
    {
        self.imp
    }

    /// Adds an instance of a streamlet under a key; fails where the key is
    /// not a valid name or is taken. The streamlet is not looked up.
    pub fn instantiate(&mut self, streamlet: StreamletRef, instance: &str) -> (r: Result<Node>)
        ensures
            final(self).project_of() == old(self).project_of(),
            final(self).imp_of().streamlet_of() == old(self).imp_of().streamlet_of(),
            final(self).imp_of().edges_of() == old(self).imp_of().edges_of(),
            !crate::name::is_valid_name(instance@) ==> (r matches Err(Error::InvalidArgument(m))
                && m@ == crate::name::name_refusal(instance@)
                && final(self).imp_of().nodes_of() == old(self).imp_of().nodes_of()),
            crate::name::is_valid_name(instance@) && has_node_key(old(self).imp_of().nodes_of(), instance@) ==> (
                r matches Err(Error::ComposerError(m))
                && m@ == "Instance "@ + instance@ + " already exists in structural implementation of "@
                    + streamlet.library.library@ + "::"@ + streamlet.streamlet@
                && final(self).imp_of().nodes_of() == old(self).imp_of().nodes_of()),
            crate::name::is_valid_name(instance@) && !has_node_key(old(self).imp_of().nodes_of(), instance@) ==> (
                r matches Ok(n)
                && node_model(n) == (NodeModel {
                    this: false,
                    key: instance@,
                    library: streamlet.library.library@,
                    streamlet: streamlet.streamlet@,
                })
                && final(self).imp_of().nodes_of().len() == old(self).imp_of().nodes_of().len() + 1
                && final(self).imp_of().nodes_of().drop_last() == old(self).imp_of().nodes_of()
                && final(self).imp_of().nodes_of().last().0 == instance@
                && node_model(final(self).imp_of().nodes_of().last().1) == node_model(n)),
    {
        proof { use_type_invariant(&self.imp); }
        let key = Name::try_new(instance)?;
        if node_map_get(&self.imp.nodes, key.as_str()).is_some() {
            let mut m = String::from_str("Instance ");
            m.append(key.as_str());
            m.append(" already exists in structural implementation of ");
            let t = streamlet.to_text();
            m.append(t.as_str());
            return Err(Error::ComposerError(m));
        }
        let node = Node::Streamlet(StreamletInst::new(key.duplicate(), streamlet));
        let copy = node.duplicate();
        let mut imp = only_this(&self.imp.streamlet);
        std::mem::swap(&mut imp, &mut self.imp);
        let StructuralImpl { streamlet: st, nodes: mut ns, edges: es } = imp;
        let ghost before = node_entries(ns);
        node_map_insert(&mut ns, key.as_str().to_owned(), copy);
        proof {
            let e = node_entries(ns);
            assert(e == before.push((instance@, copy)));
            assert forall|i: int, j: int| 0 <= i < j < e.len() implies (#[trigger] e[i]).0 != (#[trigger] e[j]).0 by {
                if j == e.len() - 1 {
                    assert(e[i] == before[i]);
                } else {
                    assert(e[i] == before[i] && e[j] == before[j]);
                }
            }
            assert(has_node_key(e, "this"@)) by {
                let k = choose|k: int| 0 <= k < before.len() && (#[trigger] before[k]).0 == "this"@;
                assert(e[k] == before[k]);
            }
            assert(instance@ != "this"@);
            assert forall|i: int| 0 <= i < e.len() implies (#[trigger] e[i]).0 == node_model(e[i].1).key
                && (node_model(e[i].1).this <==> e[i].0 == "this"@) by {
                if i < before.len() {
                    assert(e[i] == before[i]);
                }
            }
        }
        self.imp = StructuralImpl { streamlet: st, nodes: ns, edges: es };
        Ok(node)
    }

    /// The node that stands for the implemented streamlet.
    pub fn this(&self) -> (n: Node)
        ensures
            find_node(self.imp_of().nodes_of(), "this"@) matches Some(x) && node_model(n) == node_model(x),
            node_model(n).this,
    {
        proof { use_type_invariant(&self.imp); }
        let ghost e = self.imp.nodes_of();
        match node_map_get(&self.imp.nodes, "this") {
            Some(n) => {
                proof {
                    reveal_strlit("this");
                    let i = choose|i: int| 0 <= i < e.len() && (#[trigger] e[i]).0 == "this"@ && e[i].1 == *n;
                    lemma_find_node(e, i);
                }
                n.duplicate()
            },
            None => {
                proof { reveal_strlit("this"); }
                assert(false);
                Node::This(StreamletInst::new(Name::this(), self.imp.streamlet.duplicate()))
            },
        }
    }

    fn get_interface(&self, io: &NodeIORef) -> (r: Result<Interface>)
        ensures
            match lookup(self.project_of(), self.imp_of().nodes_of(), io_model(*io)) {
                Lookup::Found(m) => r matches Ok(x) && x@ == m,
                l => r matches Err(x) && lookup_failure(l, self.imp_of().streamlet_of(), io_model(*io)) matches Some(f)
                    && fails_with(x, f),
            },
    {
        let node = self.imp.node_ref(&io.node())?;
        node.get_interface(self.project, &io.interface())
    }

    /// Connects a sink to a source: fails with the error of a reference
    /// that could not be made, where an interface cannot be found, where
    /// the source is no output or the sink no input, where their types
    /// differ, or where either is connected already.
    pub fn connect(&mut self, sink: Result<NodeIORef>, source: Result<NodeIORef>) -> (r: Result<()>)
        ensures
            final(self).project_of() == old(self).project_of(),
            final(self).imp_of().streamlet_of() == old(self).imp_of().streamlet_of(),
            final(self).imp_of().nodes_of() == old(self).imp_of().nodes_of(),
            match connect_failure(old(self).project_of(), old(self).imp_of().nodes_of(),
                old(self).imp_of().streamlet_of(), old(self).imp_of().edges_of(), sink, source) {
                None => r is Ok && (sink matches Ok(sk) && (source matches Ok(sc)
                    && final(self).imp_of().edges_of() == old(self).imp_of().edges_of().push((io_model(sc), io_model(sk))))),
                Some(f) => r matches Err(e) && fails_with(e, f)
                    && final(self).imp_of().edges_of() == old(self).imp_of().edges_of(),
            },
    {
        let sink = sink?;
        let source = source?;
        let sink_if = self.get_interface(&sink)?;
        let source_if = self.get_interface(&source)?;
        let src_text = ref_text(&source);
        let snk_text = ref_text(&sink);
        let source_out = match source_if.mode() {
            Mode::Out => true,
            Mode::In => false,
        };
        let sink_in = match sink_if.mode() {
            Mode::In => true,
            Mode::Out => false,
        };
        if !source_out {
            let mut m = String::from_str("Attempting to connect ");
            m.append(src_text.as_str());
            m.append(" as source, but interface is not an output.");
            Err(Error::ComposerError(m))
        } else if !sink_in {
            let mut m = String::from_str("Attempting to connect ");
            m.append(src_text.as_str());
            m.append(" as sink, but interface is not an input.");
            Err(Error::ComposerError(m))
        } else if !source_if.typ().same(sink_if.typ()) {
            let mut m = String::from_str("Types of sink ");
            m.append(snk_text.as_str());
            m.append(" and of source ");
            m.append(src_text.as_str());
            m.append(" are incompatible.");
            Err(Error::ComposerError(m))
        } else if self.imp.get_edge(&source).is_some() {
            let mut m = String::from_str("Cannot connect sink ");
            m.append(snk_text.as_str());
            m.append(" to source ");
            m.append(src_text.as_str());
            m.append(", source is already connected.");
            Err(Error::ComposerError(m))
        } else if self.imp.get_edge(&sink).is_some() {
            let mut m = String::from_str("Cannot connect sink ");
            m.append(snk_text.as_str());
            m.append(" to source ");
            m.append(src_text.as_str());
            m.append(", sink is already connected.");
            Err(Error::ComposerError(m))
        } else {
            let mut imp = only_this(&self.imp.streamlet);
            std::mem::swap(&mut imp, &mut self.imp);
            proof { use_type_invariant(&imp); }
            let StructuralImpl { streamlet: st, nodes: ns, edges: mut es } = imp;
            let ghost before = es@;
            es.push(Edge { source, sink });
            assert(edge_models(es@) =~= edge_models(before).push(edge_model(es@.last())));
            self.imp = StructuralImpl { streamlet: st, nodes: ns, edges: es };
            Ok(())
        }
    }
}

fn ref_text(r: &NodeIORef) -> (s: String)
    ensures
        s@ == io_text(io_model(*r)),
{
    let mut s = String::new();
    s.append(r.node().as_str());
    s.append(".");
    s.append(r.interface().as_str());
    s
}

/// After a connection is made, both of its ends are connected.
pub proof fn lemma_connect_connects(
    edges: Seq<((Seq<char>, Seq<char>), (Seq<char>, Seq<char>))>,
    source: (Seq<char>, Seq<char>),
    sink: (Seq<char>, Seq<char>),
)
    ensures
        is_connected(edges.push((source, sink)), source),
        is_connected(edges.push((source, sink)), sink),
{
    let e = edges.push((source, sink));
    assert(e[edges.len() as int] == (source, sink));
}

/// An interface is connected at most once: connecting a source or a sink
/// that is connected already fails, whatever else holds.
pub proof fn lemma_no_second_connection(
    p: Project,
    e: Seq<(Seq<char>, Node)>,
    streamlet: (Seq<char>, Seq<char>),
    edges: Seq<((Seq<char>, Seq<char>), (Seq<char>, Seq<char>))>,
    sink: NodeIORef,
    source: NodeIORef,
)
    requires
        is_connected(edges, io_model(source)) || is_connected(edges, io_model(sink)),
    ensures
        connect_failure(p, e, streamlet, edges, Ok(sink), Ok(source)) is Some,
{
}

} // verus!
