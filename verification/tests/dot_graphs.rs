use tydi::design::{Interface, Mode, Streamlet};
use tydi::dot::{DotStyle, GenDot};
use tydi::library::{Library, Project};
use tydi::logical::LogicalStreamType;
use tydi::name::Name;

fn n(s: &str) -> Name {
    Name::try_new(s).unwrap()
}

fn interface(name: &str, mode: Mode) -> Interface {
    Interface::try_new(n(name), mode, LogicalStreamType::new_null(), None).unwrap()
}

#[test]
fn interface_node() {
    let prj = Project::new(n("p"));
    let i = interface("a", Mode::In);
    assert_eq!(
        i.gen_dot(&DotStyle::default(), &prj, 2, "lib_x", ""),
        "\t\tlib_x_a [label=\"a\", style=\"filled\", fillcolor=\"#FFC107\", color=\"#FFEB3B\"];"
    );
}

#[test]
fn library_graph() {
    let prj = Project::new(n("p"));
    let mut lib = Library::new(n("lib"));
    let x = Streamlet::from_builder(n("x"), vec![interface("a", Mode::In), interface("b", Mode::Out)], None)
        .unwrap();
    lib.add_streamlet(x).unwrap();
    let expected = [
        "digraph  {\n",
        "\trankdir=LR;\n",
        "\tgraph [fontname=\"Bitstream Charter\"];\n",
        "\tnode [fontname=\"Bitstream Charter\"];\n",
        "\tnode [shape=box, style=\"rounded, filled\"]\n",
        "\tedge [fontname=\"Bitstream Charter\"];\n",
        "\tsplines=compound;\n",
        "\tsubgraph cluster_lib_x { \n ",
        "\n",
        "\t\tlabel = \"x\\n\";\n",
        "\t\tstyle=\"rounded\";\n\t\tcolor=\"#607D8B\" \n\t\tbgcolor=\"#F5F5F5\"\n",
        "\t\tsubgraph cluster_lib_x_inputs {\n",
        "\t\t\tlabel=\"\";\n",
        "\t\t\tstyle=invis;\n",
        "\t\t\tlib_x_a [label=\"a\", style=\"filled\", fillcolor=\"#FFC107\", color=\"#FFEB3B\"];\n",
        "\t\t}\n",
        "\t\tsubgraph cluster_lib_x_outputs {\n",
        "\t\t\tlabel=\"\";\n",
        "\t\t\tstyle=invis;\n",
        "\t\t\tlib_x_b [label=\"b\", style=\"filled\", fillcolor=\"#C8E6C9\", color=\"#388E3C\"];\n",
        "\t\t}\n",
        "\n",
        "\t}",
        "\n",
        "}",
    ]
    .concat();
    assert_eq!(lib.gen_dot(&DotStyle::default(), &prj, 0, "", ""), expected);
}

#[test]
fn streamlet_cluster_with_label_and_no_inputs() {
    let prj = Project::new(n("p"));
    let s = Streamlet::from_builder(n("y"), vec![interface("o", Mode::Out)], None).unwrap();
    let dot = s.gen_dot(&DotStyle::default(), &prj, 0, "pre", "lbl");
    assert!(dot.starts_with("subgraph cluster_pre_lbl { \n \n\tlabel = \"y\\nlbl\";\n"));
    assert!(dot.contains("\tsubgraph cluster_pre_lbl_inputs {\n\t\tlabel=\"\";\n\t\tstyle=invis;\n\n\t}\n"));
    assert!(dot.contains("\t\tpre_lbl_o [label=\"o\""));
    assert!(dot.ends_with("\n}"));
}

#[test]
fn empty_library_graph() {
    let prj = Project::new(n("p"));
    let lib = Library::new(n("empty"));
    let dot = lib.gen_dot(&DotStyle::default(), &prj, 1, "", "");
    assert!(dot.starts_with("digraph  {\n\t\trankdir=LR;\n"));
    assert!(dot.ends_with("\t\tsplines=compound;\n\n\t}"));
}
