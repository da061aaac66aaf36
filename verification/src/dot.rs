//! The styles of the graphs that the dot back-end draws.

use vstd::prelude::*;
use crate::design::{interface_models, Interface, InterfaceModel, Mode, Streamlet, StreamletModel, QUOTE};
use crate::library::{Library, Project};
use crate::sdf::streamlet_models;
use crate::text::push_char;

verus! {

/// `n` tab characters.
pub open spec fn tabs(n: nat) -> Seq<char> {
    Seq::new(n, |i: int| '\t')
}

/// `n` tab characters.
pub fn tab(n: usize) -> (s: String)
    ensures
        s@ == tabs(n as nat),
{
    let mut s = String::new();
    let mut i: usize = 0;
    while i < n
        invariant
            i <= n,
            s@ == tabs(i as nat),
        decreases n - i,
    {
        push_char(&mut s, '\t');
        i = i + 1;
        assert(s@ =~= tabs(i as nat));
    }
    s
}

/// A pair of colors: a light one and a dark one.
#[derive(Debug, Clone, Copy, PartialEq)]
pub struct Color {
    pub l: &'static str,
    pub d: &'static str,
}

/// The seven color pairs of a style: white, gray, brown, orange, yellow,
/// green and cyan.
#[derive(Debug, Clone, Copy, PartialEq)]
pub struct Colors(pub [Color; 7]);

/// The light color of the default pair `i`.
pub open spec fn light(i: int) -> Seq<char> {
    if i == 0 { "#ffffff"@ } else if i == 1 { "#F5F5F5"@ } else if i == 2 { "#ecd9c6"@ }
    else if i == 3 { "#FFF9C4"@ } else if i == 4 { "#FFC107"@ } else if i == 5 { "#C8E6C9"@ }
    else { "#BBDEFB"@ }
}

/// The dark color of the default pair `i`.
pub open spec fn dark(i: int) -> Seq<char> {
    if i == 0 { "#f2f2f2"@ } else if i == 1 { "#607D8B"@ } else if i == 2 { "#82c6e2"@ }
    else if i == 3 { "#FBC02D"@ } else if i == 4 { "#FFEB3B"@ } else if i == 5 { "#388E3C"@ }
    else { "#536DFE"@ }
}

impl Default for Colors {
    fn default() -> (c: Colors)
        ensures
            forall|i: int| 0 <= i < 7 ==> (#[trigger] c.0@[i]).l@ == light(i) && c.0@[i].d@ == dark(i),
    {
        let c = Colors([
            Color { l: "#ffffff", d: "#f2f2f2" },
            Color { l: "#F5F5F5", d: "#607D8B" },
            Color { l: "#ecd9c6", d: "#82c6e2" },
            Color { l: "#FFF9C4", d: "#FBC02D" },
            Color { l: "#FFC107", d: "#FFEB3B" },
            Color { l: "#C8E6C9", d: "#388E3C" },
            Color { l: "#BBDEFB", d: "#536DFE" },
        ]);
        c
    }
}

/// The style of a drawing: its colors.
#[derive(Debug, Clone, Copy, PartialEq)]
pub struct DotStyle {
    pub colors: Colors,
}

impl Default for DotStyle {
    fn default() -> (s: DotStyle)
        ensures
            forall|i: int| 0 <= i < 7 ==> (#[trigger] s.colors.0@[i]).l@ == light(i) && s.colors.0@[i].d@ == dark(i),
    {
        DotStyle { colors: Colors::default() }
    }
}

/// `text` between double quotes.
pub open spec fn quoted(text: Seq<char>) -> Seq<char> {
    seq![QUOTE] + text + seq![QUOTE]
}

/// The attributes of a node in a color pair.
pub open spec fn node_attributes(l: Seq<char>, d: Seq<char>) -> Seq<char> {
    "fillcolor="@ + quoted(l) + ", color="@ + quoted(d)
}

/// The attributes of a cluster in a color pair, indented by `n` tabs.
pub open spec fn cluster_attributes(l: Seq<char>, d: Seq<char>, n: nat) -> Seq<char> {
    tabs(n) + "style="@ + quoted("rounded"@) + ";\n"@
        + tabs(n) + "color="@ + quoted(d) + " \n"@
        + tabs(n) + "bgcolor="@ + quoted(l) + "\n"@
}

/// The attributes of an interface: filled, in pair 4 for an input and
/// pair 5 for an output.
pub open spec fn io_attributes(style: DotStyle, mode: Mode) -> Seq<char> {
    "style="@ + quoted("filled"@) + ", "@ + (match mode {
        Mode::In => node_attributes(style.colors.0@[4].l@, style.colors.0@[4].d@),
        Mode::Out => node_attributes(style.colors.0@[5].l@, style.colors.0@[5].d@),
    })
}

fn push_quoted(s: &mut String, text: &str)
    ensures
        final(s)@ == old(s)@ + quoted(text@),
{
    push_char(s, QUOTE);
    s.append(text);
    push_char(s, QUOTE);
    assert(final(s)@ =~= old(s)@ + quoted(text@));
}

impl DotStyle {
    /// The attributes of a node in color pair `color`.
    pub fn node(&self, color: usize) -> (s: String)
        requires
            color < 7,
        ensures
            s@ == node_attributes(self.colors.0@[color as int].l@, self.colors.0@[color as int].d@),
    {
        let c = self.colors.0[color];
        let mut s = String::from_str("fillcolor=");
        push_quoted(&mut s, c.l);
        s.append(", color=");
        push_quoted(&mut s, c.d);
        assert(s@ =~= node_attributes(c.l@, c.d@));
        s
    }

    /// The attributes of a cluster in color pair `color`, indented by `l`
    /// tabs.
    pub fn cluster(&self, color: usize, l: usize) -> (s: String)
        requires
            color < 7,
        ensures
            s@ == cluster_attributes(self.colors.0@[color as int].l@, self.colors.0@[color as int].d@, l as nat),
    {
        let c = self.colors.0[color];
        let t = tab(l);
        let mut s = String::new();
        s.append(t.as_str());
        s.append("style=");
        push_quoted(&mut s, "rounded");
        s.append(";\n");
        s.append(t.as_str());
        s.append("color=");
        push_quoted(&mut s, c.d);
        s.append(" \n");
        s.append(t.as_str());
        s.append("bgcolor=");
        push_quoted(&mut s, c.l);
        s.append("\n");
        assert(s@ =~= cluster_attributes(c.l@, c.d@, l as nat));
        s
    }

    /// The attributes of an interface: filled, in pair 4 for an input and
    /// pair 5 for an output.
    pub fn io(&self, color: usize, mode: Mode) -> (s: String)
        ensures
            s@ == io_attributes(*self, mode),
    {
        let mut s = String::from_str("style=");
        push_quoted(&mut s, "filled");
        s.append(", ");
        let n = match mode {
            Mode::In => self.node(4),
            Mode::Out => self.node(5),
        };
        s.append(n.as_str());
        s
    }
}

// ---------------------------------------------------------------------
// Drawing libraries.

/// Texts joined with line breaks between them.
pub open spec fn join_lines(items: Seq<Seq<char>>) -> Seq<char>
    decreases items.len(),
{
    if items.len() == 0 {
        Seq::empty()
    } else if items.len() == 1 {
        items[0]
    } else {
        join_lines(items.drop_last()) + "\n"@ + items.last()
    }
}

/// The node of an interface.
pub open spec fn interface_dot(style: DotStyle, l: nat, prefix: Seq<char>, i: InterfaceModel) -> Seq<char> {
    tabs(l) + prefix + "_"@ + i.name + " [label="@ + quoted(i.name) + ", "@ + io_attributes(style, i.mode) + "];"@
}

/// The interfaces of a mode, in order.
pub open spec fn with_mode(items: Seq<InterfaceModel>, m: Mode) -> Seq<InterfaceModel>
    decreases items.len(),
{
    if items.len() == 0 {
        Seq::empty()
    } else {
        with_mode(items.drop_last(), m) + (if items.last().mode == m { seq![items.last()] } else { Seq::empty() })
    }
}

/// The nodes of interfaces.
pub open spec fn interface_dots(style: DotStyle, l: nat, prefix: Seq<char>, items: Seq<InterfaceModel>) -> Seq<Seq<char>> {
    items.map_values(|i: InterfaceModel| interface_dot(style, l, prefix, i))
}

/// An invisible cluster of interface nodes.
pub open spec fn if_subgraph_dot(style: DotStyle, l: nat, prefix: Seq<char>, suffix: Seq<char>, items: Seq<InterfaceModel>) -> Seq<char> {
    tabs(l) + "subgraph cluster_"@ + prefix + "_"@ + suffix + " {\n"@
        + (tabs(l + 1) + "label="@ + quoted(Seq::empty()) + ";\n"@ + tabs(l + 1) + "style=invis;\n"@
        + join_lines(interface_dots(style, l + 1, prefix, items)))
        + "\n"@ + tabs(l) + "}\n"@
}

/// The name of the cluster of a streamlet.
pub open spec fn cluster_name(prefix: Seq<char>, label: Seq<char>, name: Seq<char>) -> Seq<char> {
    if label.len() == 0 { prefix + "_"@ + name } else { prefix + "_"@ + label }
}

/// The label line of a streamlet's cluster.
pub open spec fn streamlet_label(n: nat, name: Seq<char>, label: Seq<char>) -> Seq<char> {
    tabs(n) + "label = "@ + quoted(name + "\\n"@ + label) + ";\n"@
}

/// The inside of a streamlet's cluster: its label, its style, its inputs
/// and its outputs.
pub open spec fn streamlet_body(style: DotStyle, l: nat, p: Seq<char>, label: Seq<char>, s: StreamletModel) -> Seq<char> {
    "\n"@ + streamlet_label(l + 1, s.name, label)
        + cluster_attributes(style.colors.0@[1].l@, style.colors.0@[1].d@, l + 1)
        + if_subgraph_dot(style, l + 1, p, "inputs"@, with_mode(s.interfaces, Mode::In))
        + if_subgraph_dot(style, l + 1, p, "outputs"@, with_mode(s.interfaces, Mode::Out)) + "\n"@
}

/// The cluster of a streamlet: its name, its inputs and its outputs.
pub open spec fn streamlet_dot(style: DotStyle, l: nat, prefix: Seq<char>, label: Seq<char>, s: StreamletModel) -> Seq<char> {
    let p = cluster_name(prefix, label, s.name);
    tabs(l) + "subgraph cluster_"@ + p + " { \n "@ + streamlet_body(style, l, p, label, s) + tabs(l) + "}"@
}

/// The clusters of streamlets.
pub open spec fn streamlet_dots(style: DotStyle, l: nat, prefix: Seq<char>, items: Seq<StreamletModel>) -> Seq<Seq<char>> {
    items.map_values(|s: StreamletModel| streamlet_dot(style, l, prefix, Seq::empty(), s))
}

/// The settings at the top of a library's graph.
#[verifier::opaque]
pub open spec fn library_header(n: nat) -> Seq<char> {
    tabs(n) + "rankdir=LR;\n"@
        + tabs(n) + "graph [fontname="@ + quoted("Bitstream Charter"@) + "];\n"@
        + tabs(n) + "node [fontname="@ + quoted("Bitstream Charter"@) + "];\n"@
        + tabs(n) + "node [shape=box, style="@ + quoted("rounded, filled"@) + "]\n"@
        + tabs(n) + "edge [fontname="@ + quoted("Bitstream Charter"@) + "];\n"@
        + tabs(n) + "splines=compound;\n"@
}

/// The graph of a library: its streamlets, left to right.
pub open spec fn library_dot(style: DotStyle, l: nat, name: Seq<char>, streamlets: Seq<StreamletModel>) -> Seq<char> {
    "digraph  {\n"@ + (library_header(l + 1) + join_lines(streamlet_dots(style, l + 1, name, streamlets)))
        + "\n"@ + tabs(l) + "}"@
}

/// Drawing in the dot language.
pub trait GenDot {
    /// The dot text of this item at nesting level `l`, its names prefixed
    /// by `prefix`, labelled `label` where that is not empty.
    fn gen_dot(&self, style: &DotStyle, project: &Project, l: usize, prefix: &str, label: &str) -> String
        requires
            l + 3 <= usize::MAX,
    ;
}

/// Appends a text to joined lines.
fn push_line(out: &mut String, count: usize, line: &str)
    ensures
        final(out)@ == if count == 0 { old(out)@ + line@ } else { old(out)@ + "\n"@ + line@ },
{
    if count > 0 {
        out.append("\n");
    }
    out.append(line);
}

/// Joined lines, one more.
proof fn lemma_join_push(items: Seq<Seq<char>>, x: Seq<char>)
    ensures
        join_lines(items.push(x)) == if items.len() == 0 { x } else { join_lines(items) + "\n"@ + x },
{
    assert(items.push(x).drop_last() =~= items);
}

impl GenDot for Interface {
    fn gen_dot(&self, style: &DotStyle, project: &Project, l: usize, prefix: &str, label: &str) -> (s: String)
        ensures
            s@ == interface_dot(*style, l as nat, prefix@, self@),
    {
        interface_text(style, l, prefix, self)
    }
}

fn interface_text(style: &DotStyle, l: usize, prefix: &str, i: &Interface) -> (s: String)
    ensures
        s@ == interface_dot(*style, l as nat, prefix@, i@),
{
    let mut s = tab(l);
    s.append(prefix);
    s.append("_");
    s.append(i.identifier());
    s.append(" [label=");
    push_quoted(&mut s, i.identifier());
    s.append(", ");
    let a = style.io(0, i.mode());
    s.append(a.as_str());
    s.append("];");
    s
}

fn if_subgraph_text(style: &DotStyle, l: usize, prefix: &str, suffix: &str, items: &Vec<Interface>, m: Mode) -> (s: String)
    requires
        l + 1 <= usize::MAX,
    ensures
        s@ == if_subgraph_dot(*style, l as nat, prefix@, suffix@, with_mode(interface_models(items@), m)),
{
    let ghost im = interface_models(items@);
    let mut s = tab(l);
    s.append("subgraph cluster_");
    s.append(prefix);
    s.append("_");
    s.append(suffix);
    s.append(" {\n");
    let t = tab(l + 1);
    s.append(t.as_str());
    s.append("label=");
    push_quoted(&mut s, "");
    s.append(";\n");
    s.append(t.as_str());
    s.append("style=invis;\n");
    let ghost head = s@;
    let mut count: usize = 0;
    let mut i: usize = 0;
    proof { reveal_strlit(""); }
    assert(im.take(0) =~= Seq::<InterfaceModel>::empty());
    assert(interface_dots(*style, (l + 1) as nat, prefix@, with_mode(im.take(0), m)) =~= Seq::<Seq<char>>::empty());
    while i < items.len()
        invariant
            i <= items@.len(),
            im == interface_models(items@),
            l + 1 <= usize::MAX,
            count == with_mode(im.take(i as int), m).len(),
            count <= i,
            s@ == head + join_lines(interface_dots(*style, (l + 1) as nat, prefix@, with_mode(im.take(i as int), m))),
        decreases items@.len() - i,
    {
        let it = &items[i];
        let ghost prev = with_mode(im.take(i as int), m);
        proof {
            assert(im.take(i + 1).drop_last() =~= im.take(i as int));
            assert(im.take(i + 1).last() == it@);
        }
        if it.mode() == m {
            let line = interface_text(style, l + 1, prefix, it);
            push_line(&mut s, count, line.as_str());
            proof {
                assert(with_mode(im.take(i + 1), m) =~= prev.push(it@));
                assert(interface_dots(*style, (l + 1) as nat, prefix@, prev.push(it@))
                    =~= interface_dots(*style, (l + 1) as nat, prefix@, prev).push(line@));
                lemma_join_push(interface_dots(*style, (l + 1) as nat, prefix@, prev), line@);
            }
            count = count + 1;
        } else {
            assert(with_mode(im.take(i + 1), m) =~= prev);
        }
        i = i + 1;
    }
    assert(im.take(items@.len() as int) =~= im);
    s.append("\n");
    let t0 = tab(l);
    s.append(t0.as_str());
    s.append("}\n");
    s
}

fn streamlet_label_text(n: usize, name: &str, label: &str) -> (s: String)
    ensures
        s@ == streamlet_label(n as nat, name@, label@),
{
    let mut s = tab(n);
    s.append("label = ");
    let mut q = name.to_owned();
    q.append("\\n");
    q.append(label);
    push_quoted(&mut s, q.as_str());
    s.append(";\n");
    s
}

fn streamlet_body_text(style: &DotStyle, l: usize, p: &str, label: &str, st: &Streamlet) -> (s: String)
    requires
        l + 2 <= usize::MAX,
    ensures
        s@ == streamlet_body(*style, l as nat, p@, label@, st@),
{
    let mut s = String::from_str("\n");
    let a = streamlet_label_text(l + 1, st.identifier(), label);
    s.append(a.as_str());
    let c = style.cluster(1, l + 1);
    s.append(c.as_str());
    let ins = if_subgraph_text(style, l + 1, p, "inputs", st.interfaces(), Mode::In);
    s.append(ins.as_str());
    let outs = if_subgraph_text(style, l + 1, p, "outputs", st.interfaces(), Mode::Out);
    s.append(outs.as_str());
    s.append("\n");
    s
}

fn streamlet_text(style: &DotStyle, l: usize, prefix: &str, label: &str, st: &Streamlet) -> (s: String)
    requires
        l + 2 <= usize::MAX,
    ensures
        s@ == streamlet_dot(*style, l as nat, prefix@, label@, st@),
{
    let mut p = prefix.to_owned();
    p.append("_");
    if label.unicode_len() == 0 {
        p.append(st.identifier());
    } else {
        p.append(label);
    }
    let mut s = tab(l);
    s.append("subgraph cluster_");
    s.append(p.as_str());
    s.append(" { \n ");
    let b = streamlet_body_text(style, l, p.as_str(), label, st);
    s.append(b.as_str());
    let t0 = tab(l);
    s.append(t0.as_str());
    s.append("}");
    s
}

fn library_header_text(n: usize) -> (s: String)
    ensures
        s@ == library_header(n as nat),
{
    let t = tab(n);
    let mut s = String::new();
    s.append(t.as_str());
    s.append("rankdir=LR;\n");
    s.append(t.as_str());
    s.append("graph [fontname=");
    push_quoted(&mut s, "Bitstream Charter");
    s.append("];\n");
    s.append(t.as_str());
    s.append("node [fontname=");
    push_quoted(&mut s, "Bitstream Charter");
    s.append("];\n");
    s.append(t.as_str());
    s.append("node [shape=box, style=");
    push_quoted(&mut s, "rounded, filled");
    s.append("]\n");
    s.append(t.as_str());
    s.append("edge [fontname=");
    push_quoted(&mut s, "Bitstream Charter");
    s.append("];\n");
    s.append(t.as_str());
    s.append("splines=compound;\n");
    proof { reveal(library_header); }
    s
}

impl GenDot for Streamlet {
    fn gen_dot(&self, style: &DotStyle, project: &Project, l: usize, prefix: &str, label: &str) -> (s: String)
        ensures
            s@ == streamlet_dot(*style, l as nat, prefix@, label@, self@),
    {
        streamlet_text(style, l, prefix, label, self)
    }
}

fn streamlets_text(style: &DotStyle, l: usize, name: &str, streamlets: &Vec<Streamlet>) -> (s: String)
    requires
        l + 2 <= usize::MAX,
    ensures
        s@ == join_lines(streamlet_dots(*style, l as nat, name@, streamlet_models(streamlets@))),
{
    let ghost sm = streamlet_models(streamlets@);
    let mut s = String::new();
    let mut i: usize = 0;
    assert(streamlet_dots(*style, l as nat, name@, sm.take(0)) =~= Seq::<Seq<char>>::empty());
    while i < streamlets.len()
        invariant
            i <= streamlets@.len(),
            l + 2 <= usize::MAX,
            sm == streamlet_models(streamlets@),
            s@ == join_lines(streamlet_dots(*style, l as nat, name@, sm.take(i as int))),
        decreases streamlets@.len() - i,
    {
        let line = streamlet_text(style, l, name, "", &streamlets[i]);
        let ghost prev = streamlet_dots(*style, l as nat, name@, sm.take(i as int));
        push_line(&mut s, i, line.as_str());
        proof {
            reveal_strlit("");
            assert(sm.take(i + 1) =~= sm.take(i as int).push(streamlets@[i as int]@));
            assert(streamlet_dots(*style, l as nat, name@, sm.take(i + 1)) =~= prev.push(line@));
            lemma_join_push(prev, line@);
        }
        i = i + 1;
    }
    assert(sm.take(streamlets@.len() as int) =~= sm);
    s
}

impl GenDot for Library {
    fn gen_dot(&self, style: &DotStyle, project: &Project, l: usize, prefix: &str, label: &str) -> (s: String)
        ensures
            s@ == library_dot(*style, l as nat, self.key_of(), self.entries()),
    {
        let h = library_header_text(l + 1);
        let t = streamlets_text(style, l + 1, self.key().as_str(), self.streamlets());
        let t0 = tab(l);
        let mut s = String::from_str("digraph  {\n");
        s.append(h.as_str());
        s.append(t.as_str());
        s.append("\n");
        s.append(t0.as_str());
        s.append("}");
        assert(s@ =~= library_dot(*style, l as nat, self.key_of(), self.entries()));
        s
    }
}

/// The dot back-end.
#[derive(Debug, Default)]
pub struct DotBackend {}

} // verus!
