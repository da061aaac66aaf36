//! Composing instances of streamlets into a graph: each instance is a
//! node, each connection between interfaces of two instances an edge.

use vstd::prelude::*;
use indexmap::IndexMap;
use petgraph::graph::{Graph, NodeIndex};
use petgraph::Directed;
use crate::error::{Error, Result};
use crate::logical::LogicalStreamType;
use crate::text::same_text;

verus! {

#[verifier::external_type_specification]
#[verifier::external_body]
#[verifier::reject_recursive_types(N)]
#[verifier::reject_recursive_types(E)]
#[verifier::reject_recursive_types(Ty)]
#[verifier::reject_recursive_types(Ix)]
pub struct ExGraph<N, E, Ty, Ix>(Graph<N, E, Ty, Ix>);

#[verifier::external_type_specification]
#[verifier::external_body]
pub struct ExDirected(Directed);

/// The mode of an interface.
#[derive(Debug, Clone, Copy, PartialEq, Eq, Structural)]
pub enum Mode {
    In,
    Out,
}

/// An interface: its mode and its type.
#[derive(Debug, PartialEq)]
pub struct Interface {
    pub mode: Mode,
    pub logical_type: LogicalStreamType,
}

impl Interface {
    /// The type of the interface.
    pub fn logical_type(&self) -> (t: &LogicalStreamType)
        ensures
            *t == self.logical_type,
    {
        &self.logical_type
    }
}

/// The entries of a map of interfaces, in their order.
pub uninterp spec fn interface_entries(m: IndexMap<String, Interface>) -> Seq<(Seq<char>, Interface)>;

/// Entries after inserting a key: a new key goes last, a key that is there
/// keeps its place and takes the new value.
pub open spec fn insert_entry<V>(e: Seq<(Seq<char>, V)>, k: Seq<char>, v: V) -> Seq<(Seq<char>, V)> {
    if exists|i: int| 0 <= i < e.len() && (#[trigger] e[i]).0 == k {
        e.update(choose|i: int| 0 <= i < e.len() && (#[trigger] e[i]).0 == k, (k, v))
    } else {
        e.push((k, v))
    }
}

/// Entries after inserting pairs in order.
pub open spec fn collected<V>(pairs: Seq<(Seq<char>, V)>) -> Seq<(Seq<char>, V)>
    decreases pairs.len(),
{
    if pairs.len() == 0 {
        Seq::empty()
    } else {
        insert_entry(collected(pairs.drop_last()), pairs.last().0, pairs.last().1)
    }
}

/// Whether an entry has a key.
pub open spec fn has_key<V>(e: Seq<(Seq<char>, V)>, k: Seq<char>) -> bool {
    exists|i: int| 0 <= i < e.len() && (#[trigger] e[i]).0 == k
}

/// The pairs of a list, by the text of their keys.
pub open spec fn keyed<V>(v: Seq<(String, V)>) -> Seq<(Seq<char>, V)> {
    v.map_values(|p: (String, V)| (p.0@, p.1))
}

/// `IndexMap::from_iter`: the pairs inserted in order.
#[verifier::external_body]
fn interface_map_from(v: Vec<(String, Interface)>) -> (m: IndexMap<String, Interface>)
    ensures
        interface_entries(m) == collected(keyed(v@)),
{
    v.into_iter().collect()
}

/// `IndexMap::get`: the value under a key, if any.
#[verifier::external_body]
fn interface_map_get<'a>(m: &'a IndexMap<String, Interface>, k: &str) -> (r: Option<&'a Interface>)
    ensures
        r is Some <==> has_key(interface_entries(*m), k@),
        r matches Some(x) ==> exists|i: int| 0 <= i < interface_entries(*m).len()
            && (#[trigger] interface_entries(*m)[i]).0 == k@ && interface_entries(*m)[i].1 == *x,
{
    m.get(k)
}

/// A streamlet: its interfaces by name.
#[derive(Debug)]
pub struct Streamlet {
    interfaces: IndexMap<String, Interface>,
}

impl Streamlet {
    /// A streamlet with the named interfaces; a name given twice keeps its
    /// first place and its last interface.
    pub fn new(interfaces: Vec<(String, Interface)>) -> (s: Streamlet)
        ensures
            s.entries() == collected(keyed(interfaces@)),
    {
        Streamlet { interfaces: interface_map_from(interfaces) }
    }

    /// The interfaces under their names, in order.
    pub closed spec fn entries(&self) -> Seq<(Seq<char>, Interface)> {
        interface_entries(self.interfaces)
    }

    /// The interface with a name, if any.
    pub fn get_interface(&self, key: &str) -> (r: Option<&Interface>)
        ensures
            r is Some <==> has_key(self.entries(), key@),
            r matches Some(x) ==> exists|i: int| 0 <= i < self.entries().len()
                && (#[trigger] self.entries()[i]).0 == key@ && self.entries()[i].1 == *x,
    {
        let r = interface_map_get(&self.interfaces, key);
        assert(interface_entries(self.interfaces) == self.entries());
        r
    }
}

/// A library: streamlets by name.
///
/// The entries are kept in a `Vec` in the order they were added, with a
/// type invariant that their keys do not repeat: a `HashMap` keyed by
/// text would give Verus nothing it can prove of a lookup, and its order
/// of iteration is not fixed.
#[derive(Debug)]
pub struct Library {
    streamlet: Vec<(String, Streamlet)>,
}

/// Whether two entries share a key.
pub open spec fn keys_unique<V>(e: Seq<(Seq<char>, V)>) -> bool {
    forall|i: int, j: int| 0 <= i < j < e.len() ==> (#[trigger] e[i]).0 != (#[trigger] e[j]).0
}

/// Inserting keeps keys apart.
proof fn lemma_insert_entry_unique<V>(e: Seq<(Seq<char>, V)>, k: Seq<char>, v: V)
    requires
        keys_unique(e),
    ensures
        keys_unique(insert_entry(e, k, v)),
        insert_entry(e, k, v).len() == if exists|i: int| 0 <= i < e.len() && (#[trigger] e[i]).0 == k { e.len() } else { e.len() + 1 },
{
    let r = insert_entry(e, k, v);
    if exists|i: int| 0 <= i < e.len() && (#[trigger] e[i]).0 == k {
        let c = choose|i: int| 0 <= i < e.len() && (#[trigger] e[i]).0 == k;
        assert forall|i: int, j: int| 0 <= i < j < r.len() implies (#[trigger] r[i]).0 != (#[trigger] r[j]).0 by {
            if i != c && j != c {
                assert(r[i] == e[i] && r[j] == e[j]);
            } else if i == c {
                assert(r[j] == e[j]);
                assert(e[c].0 != e[j].0);
            } else {
                assert(r[i] == e[i]);
                assert(e[i].0 != e[c].0);
            }
        }
    } else {
        assert forall|i: int, j: int| 0 <= i < j < r.len() implies (#[trigger] r[i]).0 != (#[trigger] r[j]).0 by {
            assert(r[i] == e[i]);
            if j < e.len() {
                assert(r[j] == e[j]);
            }
        }
    }
}

impl Library {
    /// The keys of the streamlets do not repeat.
    #[verifier::type_invariant]
    spec fn unique(self) -> bool {
        keys_unique(keyed(self.streamlet@))
    }

    /// The streamlets under their names, in order.
    pub closed spec fn entries(&self) -> Seq<(Seq<char>, Streamlet)> {
        keyed(self.streamlet@)
    }

    /// A library of the named streamlets; a name given twice keeps its
    /// first place and its last streamlet.
    pub fn new(streamlets: Vec<(String, Streamlet)>) -> (l: Library)
        ensures
            l.entries() == collected(keyed(streamlets@)),
    {
        let ghost given = keyed(streamlets@);
        let mut rest = streamlets;
        let mut v: Vec<(String, Streamlet)> = Vec::new();
        let ghost mut i: int = 0;
        assert(keyed(rest@) =~= given.skip(0));
        assert(keyed(v@) =~= collected(given.take(0)));
        while rest.len() > 0
            invariant
                0 <= i <= given.len(),
                keyed(rest@) == given.skip(i),
                keyed(v@) == collected(given.take(i)),
                keys_unique(keyed(v@)),
            decreases rest@.len(),
        {
            let ghost before = v@;
            let ghost old_rest = rest@;
            let (k, x) = rest.remove(0);
            proof {
                assert(keyed(old_rest).len() == given.len() - i);
                assert(keyed(old_rest)[0] == given.skip(i)[0]);
                assert(given.skip(i)[0] == given[i]);
                assert(rest@ == old_rest.remove(0));
                assert forall|j: int| 0 <= j < rest@.len() implies #[trigger] keyed(rest@)[j] == given.skip(i + 1)[j] by {
                    assert(rest@[j] == old_rest[j + 1]);
                    assert(keyed(old_rest)[j + 1] == given.skip(i)[j + 1]);
                }
                assert(keyed(rest@) =~= given.skip(i + 1));
                assert(given.take(i + 1).drop_last() =~= given.take(i));
                assert(given.take(i + 1).last() == given[i]);
            }
            let ghost kv = keyed(before);
            match position_of(&v, k.as_str()) {
                Some(j) => {
                    proof {
                        let c = choose|c: int| 0 <= c < kv.len() && (#[trigger] kv[c]).0 == k@;
                        if c != j {
                            assert(kv[c].0 == kv[j as int].0);
                        }
                    }
                    v.set(j, (k, x));
                    proof { lemma_insert_entry_unique(kv, given[i].0, given[i].1); }
                    assert(keyed(v@) =~= kv.update(j as int, (given[i].0, given[i].1)));
                },
                None => {
                    v.push((k, x));
                    proof { lemma_insert_entry_unique(kv, given[i].0, given[i].1); }
                    assert(keyed(v@) =~= kv.push((given[i].0, given[i].1)));
                },
            }
            proof { i = i + 1; }
        }
        assert(given.skip(i).len() == 0);
        assert(given.take(i) =~= given);
        Library { streamlet: v }
    }

    /// The streamlet with a name, if any.
    pub fn get_streamlet(&self, key: &str) -> (r: Option<&Streamlet>)
        ensures
            r is Some <==> exists|i: int| 0 <= i < self.entries().len() && (#[trigger] self.entries()[i]).0 == key@,
            r matches Some(x) ==> exists|i: int| 0 <= i < self.entries().len()
                && (#[trigger] self.entries()[i]).0 == key@ && self.entries()[i].1 == *x,
    {
        match position_of(&self.streamlet, key) {
            Some(j) => Some(&self.streamlet[j].1),
            None => None,
        }
    }

    fn index_of(&self, key: &str) -> (r: Option<usize>)
        ensures
            r is Some <==> exists|i: int| 0 <= i < self.entries().len() && (#[trigger] self.entries()[i]).0 == key@,
            r matches Some(j) ==> j < self.entries().len() && self.entries()[j as int].0 == key@,
    {
        position_of(&self.streamlet, key)
    }

    fn at(&self, j: usize) -> (s: &Streamlet)
        requires
            j < self.entries().len(),
        ensures
            *s == self.entries()[j as int].1,
    {
        &self.streamlet[j].1
    }
}

/// The position of the first pair with a key, if any.
fn position_of<V>(v: &Vec<(String, V)>, key: &str) -> (r: Option<usize>)
    ensures
        r is Some <==> exists|i: int| 0 <= i < keyed(v@).len() && (#[trigger] keyed(v@)[i]).0 == key@,
        r matches Some(j) ==> j < v@.len() && keyed(v@)[j as int].0 == key@
            && forall|i: int| 0 <= i < j ==> (#[trigger] keyed(v@)[i]).0 != key@,
{
    let mut i: usize = 0;
    while i < v.len()
        invariant
            i <= v@.len(),
            forall|k: int| 0 <= k < i ==> (#[trigger] keyed(v@)[k]).0 != key@,
        decreases v@.len() - i,
    {
        if same_text(v[i].0.as_str(), key) {
            assert(keyed(v@)[i as int].0 == key@);
            return Some(i);
        }
        i = i + 1;
    }
    None
}

/// An instance of a streamlet: its name and the position of its streamlet
/// in the library.
#[derive(Debug, PartialEq)]
pub struct Node {
    pub name: String,
    pub streamlet: usize,
}

/// A connection from an interface of one instance to an interface of
/// another: the position of each streamlet in the library and the name of
/// each interface.
#[derive(Debug, PartialEq)]
pub struct Edge {
    pub source: (usize, String),
    pub sink: (usize, String),
}

/// The nodes of a graph, by index.
pub uninterp spec fn graph_nodes(g: Graph<Node, Edge>) -> Seq<Node>;

/// The edges of a graph, by index: the index of the source node, of the
/// target node, and the weight.
pub uninterp spec fn graph_edges(g: Graph<Node, Edge>) -> Seq<(usize, usize, Edge)>;

/// The largest number of nodes or edges that the graph's 32-bit indices
/// allow.
pub open spec fn index_limit() -> nat {
    0xffff_ffff
}

/// `Graph::new`: a directed graph without nodes or edges.
#[verifier::external_body]
fn graph_new() -> (g: Graph<Node, Edge>)
    ensures
        graph_nodes(g) == Seq::<Node>::empty(),
        graph_edges(g) == Seq::<(usize, usize, Edge)>::empty(),
{
    Graph::new()
}

/// `Graph::add_node`: the node goes last; its index is returned.
#[verifier::external_body]
fn graph_add_node(g: &mut Graph<Node, Edge>, w: Node) -> (i: usize)
    requires
        graph_nodes(*old(g)).len() < index_limit(),
    ensures
        graph_nodes(*final(g)) == graph_nodes(*old(g)).push(w),
        graph_edges(*final(g)) == graph_edges(*old(g)),
        i == graph_nodes(*old(g)).len(),
{
    g.add_node(w).index()
}

/// `Graph::add_edge`: the edge from node `a` to node `b` goes last; its
/// index is returned.
#[verifier::external_body]
fn graph_add_edge(g: &mut Graph<Node, Edge>, a: usize, b: usize, w: Edge) -> (i: usize)
    requires
        a < graph_nodes(*old(g)).len(),
        b < graph_nodes(*old(g)).len(),
        graph_nodes(*old(g)).len() <= index_limit(),
        graph_edges(*old(g)).len() < index_limit(),
    ensures
        graph_edges(*final(g)) == graph_edges(*old(g)).push((a, b, w)),
        graph_nodes(*final(g)) == graph_nodes(*old(g)),
        i == graph_edges(*old(g)).len(),
{
    g.add_edge(NodeIndex::new(a), NodeIndex::new(b), w).index()
}

/// Indexing a graph by a node: the node's weight.
#[verifier::external_body]
fn graph_node(g: &Graph<Node, Edge>, i: usize) -> (r: &Node)
    requires
        i < graph_nodes(*g).len(),
        graph_nodes(*g).len() <= index_limit(),
    ensures
        *r == graph_nodes(*g)[i as int],
{
    &g[NodeIndex::new(i)]
}

/// A composition of instances of the streamlets of a library. Its
/// instance map is kept as a `Vec` of distinct keys for the same reason as
/// the library's streamlets.
#[derive(Debug)]
pub struct Composer<'a> {
    library: &'a Library,
    instance_map: Vec<(String, usize)>,
    graph: Graph<Node, Edge>,
}

impl<'a> Composer<'a> {
    /// The library of the streamlets.
    pub closed spec fn library_of(&self) -> Library {
        *self.library
    }

    /// The instances by name, with the index of their node.
    pub closed spec fn instances_of(&self) -> Seq<(Seq<char>, usize)> {
        keyed(self.instance_map@)
    }

    /// The nodes of the graph.
    pub closed spec fn nodes_of(&self) -> Seq<Node> {
        graph_nodes(self.graph)
    }

    /// The edges of the graph.
    pub closed spec fn edges_of(&self) -> Seq<(usize, usize, Edge)> {
        graph_edges(self.graph)
    }

    /// The instances are the nodes, in order, under distinct names; each
    /// refers to a streamlet of the library; each edge joins two nodes.
    pub closed spec fn well_formed(&self) -> bool {
        let inst = self.instances_of();
        let nodes = self.nodes_of();
        &&& keys_unique(inst)
        &&& inst.len() == nodes.len()
        &&& nodes.len() <= index_limit()
        &&& forall|i: int| 0 <= i < inst.len() ==> (#[trigger] inst[i]).0 == nodes[i].name@ && inst[i].1 == i
        &&& forall|i: int| 0 <= i < nodes.len() ==> (#[trigger] nodes[i]).streamlet < self.library_of().entries().len()
        &&& forall|i: int| 0 <= i < self.edges_of().len() ==> (#[trigger] self.edges_of()[i]).0 < nodes.len()
            && self.edges_of()[i].1 < nodes.len()
    }

    /// A composition without instances.
    pub fn new(library: &'a Library) -> (c: Composer<'a>)
        ensures
            c.well_formed(),
            c.library_of() == *library,
            c.instances_of().len() == 0,
            c.edges_of().len() == 0,
    {
        let c = Composer { library, instance_map: Vec::new(), graph: graph_new() };
        assert(keyed(c.instance_map@) =~= Seq::empty());
        c
    }

    /// The streamlet with a name; fails where the library has none.
    pub fn get_streamlet(&self, name: &str) -> (r: Result<&'a Streamlet>)
        ensures
            has_key(self.library_of().entries(), name@) ==> (r matches Ok(s) && exists|i: int|
                0 <= i < self.library_of().entries().len() && (#[trigger] self.library_of().entries()[i]).0 == name@
                && self.library_of().entries()[i].1 == *s),
            !has_key(self.library_of().entries(), name@) ==> r == Err::<&Streamlet, Error>(Error::UnknownError),
    {
        match self.library.get_streamlet(name) {
            Some(s) => Ok(s),
            None => Err(Error::UnknownError),
        }
    }

    /// The index of the node of an instance; fails where there is none.
    pub fn get_instance_idx(&self, name: &str) -> (r: Result<usize>)
        requires
            self.well_formed(),
        ensures
            has_key(self.instances_of(), name@) ==> (r matches Ok(i) && i < self.nodes_of().len()
                && self.instances_of()[i as int].0 == name@),
            !has_key(self.instances_of(), name@) ==> r == Err::<usize, Error>(Error::UnknownError),
    {
        match position_of(&self.instance_map, name) {
            Some(j) => Ok(self.instance_map[j].1),
            None => Err(Error::UnknownError),
        }
    }

    /// The streamlet of an instance, if there is one.
    pub fn get_instance(&self, name: &str) -> (r: Option<&Streamlet>)
        requires
            self.well_formed(),
        ensures
            has_key(self.instances_of(), name@) ==> (r matches Some(s) && exists|i: int|
                0 <= i < self.instances_of().len() && (#[trigger] self.instances_of()[i]).0 == name@
                && *s == self.library_of().entries()[self.nodes_of()[i].streamlet as int].1),
            !has_key(self.instances_of(), name@) ==> r is None,
    {
        match self.get_instance_idx(name) {
            Ok(idx) => {
                let node = graph_node(&self.graph, idx);
                Some(self.library.at(node.streamlet))
            },
            Err(_) => None,
        }
    }

    /// Adds an instance of a streamlet under a name; fails where the name
    /// is taken or the library has no such streamlet. Returns the index of
    /// the new node.
    pub fn instantiate(&mut self, streamlet: &str, name: &str) -> (r: Result<usize>)
        requires
            old(self).well_formed(),
            old(self).nodes_of().len() < index_limit(),
        ensures
            final(self).well_formed(),
            final(self).library_of() == old(self).library_of(),
            final(self).edges_of() == old(self).edges_of(),
            has_key(old(self).instances_of(), name@) || !has_key(old(self).library_of().entries(), streamlet@) ==> (
                r == Err::<usize, Error>(Error::UnknownError) && final(self).instances_of() == old(self).instances_of()
                && final(self).nodes_of() == old(self).nodes_of()),
            !has_key(old(self).instances_of(), name@) && has_key(old(self).library_of().entries(), streamlet@) ==> (
                r == Ok::<usize, Error>(old(self).nodes_of().len() as usize)
                && final(self).instances_of() == old(self).instances_of().push((name@, old(self).nodes_of().len() as usize))
                && final(self).nodes_of().len() == old(self).nodes_of().len() + 1
                && final(self).nodes_of().drop_last() == old(self).nodes_of()
                && final(self).nodes_of().last().name@ == name@
                && old(self).library_of().entries()[final(self).nodes_of().last().streamlet as int].0 == streamlet@),
    {
        if position_of(&self.instance_map, name).is_some() {
            return Err(Error::UnknownError);
        }
        let s = match self.library.index_of(streamlet) {
            Some(j) => j,
            None => return Err(Error::UnknownError),
        };
        let ghost inst0 = self.instances_of();
        let ghost nodes0 = self.nodes_of();
        let ghost edges0 = self.edges_of();
        assert(forall|i: int| 0 <= i < edges0.len() ==> (#[trigger] edges0[i]).0 < nodes0.len() && edges0[i].1 < nodes0.len());
        let idx = graph_add_node(&mut self.graph, Node { name: name.to_owned(), streamlet: s });
        self.instance_map.push((name.to_owned(), idx));
        proof {
            let inst = self.instances_of();
            let nodes = self.nodes_of();
            assert(inst =~= inst0.push((name@, idx)));
            assert forall|i: int, j: int| 0 <= i < j < inst.len() implies (#[trigger] inst[i]).0 != (#[trigger] inst[j]).0 by {
                assert(inst[i] == inst0[i]);
                if j < inst0.len() {
                    assert(inst[j] == inst0[j]);
                }
            }
            assert forall|i: int| 0 <= i < inst.len() implies (#[trigger] inst[i]).0 == nodes[i].name@ && inst[i].1 == i by {
                if i < inst0.len() {
                    assert(inst[i] == inst0[i]);
                    assert(nodes[i] == nodes0[i]);
                }
            }
            assert forall|i: int| 0 <= i < nodes.len() implies (#[trigger] nodes[i]).streamlet < self.library_of().entries().len() by {
                if i < nodes0.len() {
                    assert(nodes[i] == nodes0[i]);
                }
            }
            assert(nodes.drop_last() =~= nodes0);
            assert(keys_unique(inst));
            assert(inst.len() == nodes.len());
            assert(nodes.len() <= index_limit());
            assert forall|i: int| 0 <= i < self.edges_of().len() implies (#[trigger] self.edges_of()[i]).0 < nodes.len()
                && self.edges_of()[i].1 < nodes.len() by {
                assert(self.edges_of()[i] == edges0[i]);
            }
        }
        Ok(idx)
    }

    /// Connects an interface of one instance to an interface of another;
    /// fails where either instance is missing. The interfaces are not
    /// looked up. Returns the index of the new edge.
    pub fn connect(&mut self, source: (&str, &str), sink: (&str, &str)) -> (r: Result<usize>)
        requires
            old(self).well_formed(),
            old(self).edges_of().len() < index_limit(),
        ensures
            final(self).well_formed(),
            final(self).library_of() == old(self).library_of(),
            final(self).instances_of() == old(self).instances_of(),
            final(self).nodes_of() == old(self).nodes_of(),
            !has_key(old(self).instances_of(), source.0@) || !has_key(old(self).instances_of(), sink.0@) ==> (
                r == Err::<usize, Error>(Error::UnknownError) && final(self).edges_of() == old(self).edges_of()),
            has_key(old(self).instances_of(), source.0@) && has_key(old(self).instances_of(), sink.0@) ==> (
                r == Ok::<usize, Error>(old(self).edges_of().len() as usize)
                && final(self).edges_of().len() == old(self).edges_of().len() + 1
                && final(self).edges_of().drop_last() == old(self).edges_of()
                && old(self).instances_of()[final(self).edges_of().last().0 as int].0 == source.0@
                && old(self).instances_of()[final(self).edges_of().last().1 as int].0 == sink.0@
                && final(self).edges_of().last().2.source.0 == old(self).nodes_of()[final(self).edges_of().last().0 as int].streamlet
                && final(self).edges_of().last().2.source.1@ == source.1@
                && final(self).edges_of().last().2.sink.0 == old(self).nodes_of()[final(self).edges_of().last().1 as int].streamlet
                && final(self).edges_of().last().2.sink.1@ == sink.1@),
    {
        let a = self.get_instance_idx(source.0)?;
        let b = self.get_instance_idx(sink.0)?;
        let sa = graph_node(&self.graph, a).streamlet;
        let sb = graph_node(&self.graph, b).streamlet;
        let ghost edges0 = self.edges_of();
        let w = Edge { source: (sa, source.1.to_owned()), sink: (sb, sink.1.to_owned()) };
        let e = graph_add_edge(&mut self.graph, a, b, w);
        proof {
            let edges = self.edges_of();
            assert forall|i: int| 0 <= i < edges.len() implies (#[trigger] edges[i]).0 < self.nodes_of().len()
                && edges[i].1 < self.nodes_of().len() by {
                if i < edges0.len() {
                    assert(edges[i] == edges0[i]);
                }
            }
            assert(edges.drop_last() =~= edges0);
        }
        Ok(e)
    }
}

} // verus!
