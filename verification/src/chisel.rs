//! Configuration of the Chisel back-end.

use vstd::prelude::*;
use crate::error::{Error, Result};
use crate::phys::opt_view;
use crate::hdl::{
    cat, cat_names, component_models, field_models, lemma_field_models, port_models, Component, ComponentModel,
    Field, FieldModel, Mode, Package, Port, PortModel, Record, RecordModel, Type, TypeModel,
};
use crate::packages::{
    add_types, declare_record_types, empty_state, ids_unique, lemma_add_types_ids_unique, lemma_add_types_stuck, push_type,
    type_models, Dialect, PackageState,
};
use crate::text::{chars_of, decimal, push_char, push_decimal, same_text};

verus! {

/// The direction of a Chisel field or port.
#[derive(Debug, Clone, Copy, PartialEq, Eq, Structural)]
pub enum ChiselMode {
    /// An input port.
    In,
    /// An output port.
    Out,
    /// A field that flows with its parent.
    Forward,
    /// A field that flows against its parent.
    Reverse,
}

/// Abstraction levels of generated Chisel.
#[derive(Debug, Clone, Copy, PartialEq, Eq, Structural)]
pub enum AbstractionLevel {
    /// The canonical representation of streamlets as components.
    Canonical,
    /// Canonical components wrapping a more user-friendly version.
    Fancy,
}

impl Default for AbstractionLevel {
    fn default() -> (a: AbstractionLevel)
        ensures
            a == AbstractionLevel::Fancy,
    {
        AbstractionLevel::Fancy
    }
}

impl AbstractionLevel {
    /// The level written `canon` or `fancy`; fails with the text otherwise.
    pub fn from_text(s: &str) -> (r: Result<AbstractionLevel>)
        ensures
            s@ == "canon"@ ==> r == Ok::<AbstractionLevel, Error>(AbstractionLevel::Canonical),
            s@ == "fancy"@ ==> r == Ok::<AbstractionLevel, Error>(AbstractionLevel::Fancy),
            s@ != "canon"@ && s@ != "fancy"@ ==> (r matches Err(Error::InvalidArgument(m)) && m@ == s@),
    {
        proof {
            reveal_strlit("canon");
            reveal_strlit("fancy");
            assert("canon"@[0] != "fancy"@[0]);
        }
        if same_text(s, "canon") {
            Ok(AbstractionLevel::Canonical)
        } else if same_text(s, "fancy") {
            Ok(AbstractionLevel::Fancy)
        } else {
            Err(Error::InvalidArgument(s.to_owned()))
        }
    }
}

/// Configuration of the Chisel back-end: the abstraction level and the
/// suffix of generated files.
#[derive(Debug, PartialEq)]
pub struct ChiselConfig {
    abstraction: Option<AbstractionLevel>,
    suffix: Option<String>,
}

impl ChiselConfig {
    /// A configuration with the given options.
    pub fn new(abstraction: Option<AbstractionLevel>, suffix: Option<String>) -> (c: ChiselConfig)
        ensures
            c.abstraction_of() == abstraction,
            c.suffix_of() == opt_view(suffix),
    {
        ChiselConfig { abstraction, suffix }
    }

    /// The abstraction level that was chosen, if any.
    pub closed spec fn abstraction_of(&self) -> Option<AbstractionLevel> {
        self.abstraction
    }

    /// The suffix that was chosen, if any.
    pub closed spec fn suffix_of(&self) -> Option<Seq<char>> {
        opt_view(self.suffix)
    }

    /// The abstraction level: the chosen one, `Fancy` by default.
    pub fn abstraction(&self) -> (a: AbstractionLevel)
        ensures
            a == (match self.abstraction_of() {
                Some(x) => x,
                None => AbstractionLevel::Fancy,
            }),
    {
        match self.abstraction {
            Some(a) => a,
            None => AbstractionLevel::Fancy,
        }
    }

    /// The suffix of generated files, if any.
    pub fn suffix(&self) -> (s: Option<String>)
        ensures
            opt_view(s) == self.suffix_of(),
    {
        match &self.suffix {
            Some(x) => Some(x.clone()),
            None => None,
        }
    }
}

impl Default for ChiselConfig {
    fn default() -> (c: ChiselConfig)
        ensures
            c.suffix_of() is None,
            c.abstraction_of() is None,
    {
        ChiselConfig { suffix: None, abstraction: None }
    }
}

/// The Chisel back-end, with its configuration.
#[derive(Debug, PartialEq)]
pub struct ChiselBackEnd {
    config: ChiselConfig,
}

impl ChiselBackEnd {
    /// The back-end with a configuration.
    pub fn from(config: ChiselConfig) -> (b: ChiselBackEnd)
        ensures
            b.config_of() == config,
    {
        ChiselBackEnd { config }
    }

    /// The configuration of the back-end.
    pub closed spec fn config_of(&self) -> ChiselConfig {
        self.config
    }

    /// The configuration of the back-end.
    pub fn config(&self) -> (c: &ChiselConfig)
        ensures
            *c == self.config_of(),
    {
        &self.config
    }
}

impl Default for ChiselBackEnd {
    fn default() -> (b: ChiselBackEnd)
        ensures
            b.config_of().suffix_of() is None,
            b.config_of().abstraction_of() is None,
    {
        ChiselBackEnd { config: ChiselConfig::default() }
    }
}

// ---------------------------------------------------------------------
// Declarations of the common hardware representation.

/// Declarations of ports, components and packages.
pub trait DeclareChisel {
    /// The declaration of this item.
    fn declare(&self) -> Result<String>;
}

/// Declarations of types.
pub trait DeclareChiselType {
    /// The declaration of this type.
    fn declare(&self, is_root_type: bool) -> Result<String>;
}

/// Declarations of packages at an abstraction level.
pub trait DeclareChiselLibrary {
    /// The declaration of this package.
    fn declare(&self, abstraction: AbstractionLevel) -> Result<String>;
}

/// Identifiers in Chisel.
pub trait ChiselIdentifier {
    /// The Chisel identifier of this item.
    fn chisel_identifier(&self) -> Result<String>;
}

/// The direction of a field or a port in Chisel.
pub trait FieldMode {
    /// The direction of this item.
    fn field_mode(&self) -> Result<ChiselMode>;
}

/// Whether an item is a Chisel `Decoupled` bundle.
pub trait IsDecoupled {
    /// Whether this item has a `ready` field.
    fn is_decupled(&self) -> bool;
}

/// Listing the record types that an item uses.
pub trait Analyze {
    /// The record types used.
    fn list_record_types(&self) -> Vec<Type>;
}

/// The Chisel word of a port mode.
pub open spec fn mode_id(m: Mode) -> Seq<char> {
    match m {
        Mode::In => "Input"@,
        Mode::Out => "Output"@,
    }
}

/// The Chisel word of a direction.
pub open spec fn chisel_mode_id(m: ChiselMode) -> Seq<char> {
    match m {
        ChiselMode::In => "Input"@,
        ChiselMode::Out => "Output"@,
        ChiselMode::Forward => "Flipped"@,
        ChiselMode::Reverse => ""@,
    }
}

/// Whether a record has a field named `ready`.
pub open spec fn is_decoupled(r: RecordModel) -> bool {
    exists|i: int| 0 <= i < r.fields.len() && #[trigger] r.fields[i].name == "ready"@
}

/// The Chisel text of an unsigned number of `w` bits; no bits count as one.
pub open spec fn uint_text(w: nat) -> Seq<char> {
    "UInt("@ + decimal(if w == 0 { 1 } else { w }) + ".W)"@
}

/// The Chisel identifier of a type: a record is named by its class,
/// wrapped in `Decoupled` where it has a `ready` field.
pub open spec fn chisel_id(t: TypeModel) -> Seq<char> {
    match t {
        TypeModel::Bit => "Bool()"@,
        TypeModel::BitVec(w) => uint_text(w),
        TypeModel::Record(r) => if is_decoupled(r) {
            "Decoupled(new "@ + cat(r.identifier, "type"@) + ")"@
        } else {
            "new "@ + cat(r.identifier, "type"@)
        },
    }
}

/// The direction of a field: records flow forward or reverse, other types
/// in or out.
pub open spec fn field_mode(f: FieldModel) -> ChiselMode {
    match f.typ {
        TypeModel::Record(_) => if f.reversed { ChiselMode::Reverse } else { ChiselMode::Forward },
        _ => if f.reversed { ChiselMode::Out } else { ChiselMode::In },
    }
}

/// The direction of a port: records flow forward or reverse, other types
/// in or out.
pub open spec fn port_mode(p: PortModel) -> ChiselMode {
    match p.typ {
        TypeModel::Record(_) => match p.mode {
            Mode::In => ChiselMode::Forward,
            Mode::Out => ChiselMode::Reverse,
        },
        _ => match p.mode {
            Mode::In => ChiselMode::In,
            Mode::Out => ChiselMode::Out,
        },
    }
}

/// The member line of a field in a bundle; `ready` and `valid` have none.
pub open spec fn chisel_member(f: FieldModel) -> Seq<char> {
    if f.name == "ready"@ || f.name == "valid"@ {
        Seq::empty()
    } else {
        "   val "@ + f.name + " = "@ + chisel_mode_id(field_mode(f)) + "("@ + chisel_id(f.typ) + ")\n"@
    }
}

/// The member lines of fields.
pub open spec fn chisel_members(f: Seq<FieldModel>) -> Seq<char>
    decreases f.len(),
{
    if f.len() == 0 {
        Seq::empty()
    } else {
        chisel_members(f.drop_last()) + chisel_member(f.last())
    }
}

/// The declaration of a record: the classes of its nested records first,
/// then its own bundle class.
pub open spec fn chisel_rec_decl(r: RecordModel) -> Seq<char>
    decreases r,
{
    chisel_children(r.fields) + "class "@ + cat(r.identifier, "type"@) + " extends Bundle { \n"@
        + chisel_members(r.fields) + "}"@
}

/// The declarations of the records nested in fields, in order.
pub open spec fn chisel_children(f: Seq<FieldModel>) -> Seq<char>
    decreases f,
{
    if f.len() == 0 {
        Seq::empty()
    } else {
        chisel_children(f.subrange(0, f.len() - 1)) + chisel_child(f.last())
    }
}

/// The declaration of the record of a field, if it holds one.
pub open spec fn chisel_child(f: FieldModel) -> Seq<char>
    decreases f,
{
    match f.typ {
        TypeModel::Record(n) => chisel_rec_decl(n) + "\n\n"@,
        _ => Seq::empty(),
    }
}

/// The declaration of a type.
pub open spec fn chisel_type_decl(t: TypeModel) -> Seq<char> {
    match t {
        TypeModel::Bit => "Bool()"@,
        TypeModel::BitVec(w) => uint_text(w),
        TypeModel::Record(r) => chisel_rec_decl(r),
    }
}

fn uint_text_of(w: usize) -> (s: String)
    ensures
        s@ == uint_text(w as nat),
{
    let mut s = String::from_str("UInt(");
    push_decimal(&mut s, if w == 0 { 1 } else { w });
    s.append(".W)");
    s
}

fn is_decoupled_of(r: &Record) -> (b: bool)
    ensures
        b == is_decoupled(r@),
{
    let ghost fm = field_models(r.fields@);
    proof { lemma_field_models(r.fields@); }
    let mut i: usize = 0;
    while i < r.fields.len()
        invariant
            i <= r.fields@.len(),
            fm == field_models(r.fields@),
            fm == r@.fields,
            fm.len() == r.fields@.len(),
            forall|k: int| 0 <= k < r.fields@.len() ==> #[trigger] fm[k] == r.fields@[k]@,
            forall|k: int| 0 <= k < i ==> (#[trigger] fm[k]).name != "ready"@,
        decreases r.fields@.len() - i,
    {
        if same_text(r.fields[i].name.as_str(), "ready") {
            assert(fm[i as int].name == "ready"@);
            return true;
        }
        i = i + 1;
    }
    false
}

/// The Chisel identifier of a type.
pub fn chisel_id_of(t: &Type) -> (s: String)
    ensures
        s@ == chisel_id(t@),
{
    match t {
        Type::Bit => String::from_str("Bool()"),
        Type::BitVec { width } => uint_text_of(*width),
        Type::Record(r) => {
            let name = cat_names(r.identifier.as_str(), "type");
            if is_decoupled_of(r) {
                let mut s = String::from_str("Decoupled(new ");
                s.append(name.as_str());
                s.append(")");
                s
            } else {
                let mut s = String::from_str("new ");
                s.append(name.as_str());
                s
            }
        },
    }
}

fn mode_text(m: ChiselMode) -> (s: &'static str)
    ensures
        s@ == chisel_mode_id(m),
{
    match m {
        ChiselMode::In => "Input",
        ChiselMode::Out => "Output",
        ChiselMode::Forward => "Flipped",
        ChiselMode::Reverse => "",
    }
}

fn field_mode_of(f: &Field) -> (m: ChiselMode)
    ensures
        m == field_mode(f@),
{
    match f.typ {
        Type::Record(_) => if f.reversed { ChiselMode::Reverse } else { ChiselMode::Forward },
        _ => if f.reversed { ChiselMode::Out } else { ChiselMode::In },
    }
}

fn port_mode_of(p: &Port) -> (m: ChiselMode)
    ensures
        m == port_mode(p@),
{
    match p.typ() {
        Type::Record(_) => match p.mode() {
            Mode::In => ChiselMode::Forward,
            Mode::Out => ChiselMode::Reverse,
        },
        _ => match p.mode() {
            Mode::In => ChiselMode::In,
            Mode::Out => ChiselMode::Out,
        },
    }
}

fn chisel_rec_text(rec: &Record) -> (s: String)
    ensures
        s@ == chisel_rec_decl(rec@),
    decreases rec,
{
    let ghost fm = field_models(rec.fields@);
    proof { lemma_field_models(rec.fields@); }
    let mut children = String::new();
    let mut this = String::from_str("class ");
    let name = cat_names(rec.identifier.as_str(), "type");
    this.append(name.as_str());
    this.append(" extends Bundle { \n");
    let ghost head = this@;
    assert(fm.take(0) =~= Seq::<FieldModel>::empty());
    let mut i: usize = 0;
    while i < rec.fields.len()
        invariant
            i <= rec.fields@.len(),
            fm == field_models(rec.fields@),
            fm == rec@.fields,
            fm.len() == rec.fields@.len(),
            forall|k: int| 0 <= k < rec.fields@.len() ==> #[trigger] fm[k] == rec.fields@[k]@,
            children@ == chisel_children(fm.take(i as int)),
            this@ == head + chisel_members(fm.take(i as int)),
        decreases rec.fields@.len() - i,
    {
        let field = &rec.fields[i];
        proof {
            assert(fm.take(i + 1).subrange(0, i as int) =~= fm.take(i as int));
            assert(fm.take(i + 1).drop_last() =~= fm.take(i as int));
            assert(fm.take(i + 1).last() == field@);
        }
        assert(decreases_to!(*rec => rec.fields@[i as int]));
        let c = chisel_child_text(field);
        children.append(c.as_str());
        let m = chisel_member_text(field);
        this.append(m.as_str());
        i = i + 1;
    }
    assert(fm.take(rec.fields@.len() as int) =~= fm);
    this.append("}");
    let mut out = children;
    out.append(this.as_str());
    out
}

fn chisel_child_text(f: &Field) -> (s: String)
    ensures
        s@ == chisel_child(f@),
    decreases f,
{
    match &f.typ {
        Type::Record(nested) => {
            assert(decreases_to!(f.typ => *nested));
            let mut t = chisel_rec_text(nested);
            t.append("\n\n");
            t
        },
        _ => String::new(),
    }
}

fn chisel_member_text(f: &Field) -> (s: String)
    ensures
        s@ == chisel_member(f@),
{
    let mut this = String::new();
    if !same_text(f.name.as_str(), "ready") && !same_text(f.name.as_str(), "valid") {
        this.append("   val ");
        this.append(f.name.as_str());
        this.append(" = ");
        this.append(mode_text(field_mode_of(f)));
        this.append("(");
        let t = chisel_id_of(&f.typ);
        this.append(t.as_str());
        this.append(")\n");
    }
    this
}

pub(crate) fn chisel_type_text(t: &Type) -> (s: String)
    ensures
        s@ == chisel_type_decl(t@),
{
    match t {
        Type::Bit => String::from_str("Bool()"),
        Type::BitVec { width } => uint_text_of(*width),
        Type::Record(r) => chisel_rec_text(r),
    }
}

impl ChiselIdentifier for Mode {
    fn chisel_identifier(&self) -> (r: Result<String>)
        ensures
            r matches Ok(s) && s@ == mode_id(*self),
    {
        match self {
            Mode::In => Ok(String::from_str("Input")),
            Mode::Out => Ok(String::from_str("Output")),
        }
    }
}

impl ChiselIdentifier for ChiselMode {
    fn chisel_identifier(&self) -> (r: Result<String>)
        ensures
            r matches Ok(s) && s@ == chisel_mode_id(*self),
    {
        Ok(String::from_str(mode_text(*self)))
    }
}

impl ChiselIdentifier for Type {
    fn chisel_identifier(&self) -> (r: Result<String>)
        ensures
            r matches Ok(s) && s@ == chisel_id(self@),
    {
        Ok(chisel_id_of(self))
    }
}

impl ChiselIdentifier for Record {
    fn chisel_identifier(&self) -> (r: Result<String>)
        ensures
            r matches Ok(s) && s@ == cat(self@.identifier, "type"@),
    {
        Ok(cat_names(self.identifier.as_str(), "type"))
    }
}

impl ChiselIdentifier for Port {
    fn chisel_identifier(&self) -> (r: Result<String>)
        ensures
            r matches Ok(s) && s@ == self@.identifier,
    {
        Ok(self.identifier().to_owned())
    }
}

impl IsDecoupled for Record {
    fn is_decupled(&self) -> (b: bool)
        ensures
            b == is_decoupled(self@),
    {
        is_decoupled_of(self)
    }
}

impl IsDecoupled for Type {
    fn is_decupled(&self) -> (b: bool)
        ensures
            b == (match self@ {
                TypeModel::Record(r) => is_decoupled(r),
                _ => false,
            }),
    {
        match self {
            Type::Record(r) => is_decoupled_of(r),
            _ => false,
        }
    }
}

impl FieldMode for Field {
    fn field_mode(&self) -> (r: Result<ChiselMode>)
        ensures
            r == Ok::<ChiselMode, Error>(field_mode(self@)),
    {
        Ok(field_mode_of(self))
    }
}

impl FieldMode for Port {
    fn field_mode(&self) -> (r: Result<ChiselMode>)
        ensures
            r == Ok::<ChiselMode, Error>(port_mode(self@)),
    {
        Ok(port_mode_of(self))
    }
}

impl DeclareChiselType for Type {
    fn declare(&self, is_root_type: bool) -> (r: Result<String>)
        ensures
            r matches Ok(s) && s@ == chisel_type_decl(self@),
    {
        Ok(chisel_type_text(self))
    }
}

impl DeclareChiselType for Record {
    fn declare(&self, is_root_type: bool) -> (r: Result<String>)
        ensures
            r matches Ok(s) && s@ == chisel_rec_decl(self@),
    {
        Ok(chisel_rec_text(self))
    }
}

/// A text with each line break replaced.
pub open spec fn replace_newlines(s: Seq<char>, rep: Seq<char>) -> Seq<char>
    decreases s.len(),
{
    if s.len() == 0 {
        Seq::empty()
    } else {
        replace_newlines(s.drop_last(), rep) + (if s.last() == '\n' { rep } else { seq![s.last()] })
    }
}

/// Documentation as comment lines: `//` before it and before each of its
/// further lines, where `rep` breaks a line, and `end` after it.
pub open spec fn doc_comment(doc: Option<Seq<char>>, rep: Seq<char>, end: Seq<char>) -> Seq<char> {
    match doc {
        Some(d) => "//"@ + replace_newlines(d, rep) + end,
        None => Seq::empty(),
    }
}

/// The declaration of a port.
pub open spec fn chisel_port_decl(p: PortModel) -> Seq<char> {
    doc_comment(p.doc, "\n    //"@, "\n    "@) + "val "@ + p.identifier + " = "@ + chisel_mode_id(port_mode(p)) + "("@
        + chisel_id(p.typ) + ")\n"@
}

/// The lines of the ports of a component; clock and reset have none.
pub open spec fn chisel_ports(ps: Seq<PortModel>) -> Seq<char>
    decreases ps.len(),
{
    if ps.len() == 0 {
        Seq::empty()
    } else {
        chisel_ports(ps.drop_last()) + (if ps.last().identifier == "clk"@ || ps.last().identifier == "rst"@ {
            Seq::empty()
        } else {
            "    "@ + chisel_port_decl(ps.last())
        })
    }
}

/// The input and output bundle of a component; none without ports.
pub open spec fn chisel_io(ps: Seq<PortModel>) -> Seq<char> {
    if ps.len() == 0 {
        Seq::empty()
    } else {
        " val io =  IO(new Bundle{\n"@ + chisel_ports(ps) + "  })\n"@
    }
}

/// The declaration of a component as a module.
pub open spec fn chisel_comp_decl(c: ComponentModel) -> Seq<char> {
    doc_comment(c.doc, "\n//"@, "\n"@) + "class "@ + c.identifier + " extends Module {\n"@ + chisel_io(c.ports)
        + "\n\n// User code\n\n"@ + "}"@
}

/// The types of the ports that are records, in order.
pub open spec fn chisel_port_records(ps: Seq<PortModel>) -> Seq<TypeModel>
    decreases ps.len(),
{
    if ps.len() == 0 {
        Seq::empty()
    } else {
        chisel_port_records(ps.drop_last()) + (if ps.last().typ is Record { seq![ps.last().typ] } else { Seq::empty() })
    }
}

fn push_replacing_newlines(out: &mut String, s: &str, rep: &str)
    ensures
        final(out)@ == old(out)@ + replace_newlines(s@, rep@),
{
    let cs = chars_of(s);
    let ghost start = out@;
    let mut i: usize = 0;
    assert(cs@.take(0) =~= Seq::<char>::empty());
    while i < cs.len()
        invariant
            i <= cs@.len(),
            cs@ == s@,
            out@ == start + replace_newlines(cs@.take(i as int), rep@),
            start == old(out)@,
        decreases cs@.len() - i,
    {
        proof {
            assert(cs@.take(i + 1).drop_last() =~= cs@.take(i as int));
            assert(cs@.take(i + 1).last() == cs@[i as int]);
        }
        if cs[i] == '\n' {
            out.append(rep);
        } else {
            push_char(out, cs[i]);
        }
        i = i + 1;
        assert(out@ =~= start + replace_newlines(cs@.take(i as int), rep@));
    }
    assert(cs@.take(cs@.len() as int) =~= cs@);
}

fn push_doc_comment(out: &mut String, doc: Option<String>, rep: &str, end: &str)
    ensures
        final(out)@ == old(out)@ + doc_comment(opt_view(doc), rep@, end@),
{
    match doc {
        Some(d) => {
            out.append("//");
            push_replacing_newlines(out, d.as_str(), rep);
            out.append(end);
        },
        None => {
            assert(out@ =~= old(out)@ + Seq::<char>::empty());
        },
    }
}

fn chisel_port_text(p: &Port) -> (s: String)
    ensures
        s@ == chisel_port_decl(p@),
{
    let mut s = String::new();
    push_doc_comment(&mut s, p.doc(), "\n    //", "\n    ");
    s.append("val ");
    s.append(p.identifier());
    s.append(" = ");
    s.append(mode_text(port_mode_of(p)));
    s.append("(");
    let t = chisel_id_of(p.typ());
    s.append(t.as_str());
    s.append(")\n");
    s
}

impl DeclareChisel for Port {
    fn declare(&self) -> (r: Result<String>)
        ensures
            r matches Ok(s) && s@ == chisel_port_decl(self@),
    {
        Ok(chisel_port_text(self))
    }
}

fn chisel_comp_text(c: &Component) -> (s: String)
    ensures
        s@ == chisel_comp_decl(c@),
{
    let ports = c.ports();
    let ghost pm = port_models(ports@);
    let mut s = String::new();
    push_doc_comment(&mut s, c.doc(), "\n//", "\n");
    s.append("class ");
    s.append(c.identifier());
    s.append(" extends Module {\n");
    let ghost head = s@;
    if ports.len() > 0 {
        s.append(" val io =  IO(new Bundle{\n");
        let ghost open = s@;
        assert(pm.take(0) =~= Seq::<PortModel>::empty());
        let mut i: usize = 0;
        while i < ports.len()
            invariant
                i <= ports@.len(),
                pm == port_models(ports@),
                s@ == open + chisel_ports(pm.take(i as int)),
            decreases ports@.len() - i,
        {
            let p = &ports[i];
            proof {
                assert(pm.take(i + 1).drop_last() =~= pm.take(i as int));
                assert(pm.take(i + 1).last() == p@);
            }
            if !same_text(p.identifier(), "clk") && !same_text(p.identifier(), "rst") {
                s.append("    ");
                let t = chisel_port_text(p);
                s.append(t.as_str());
            }
            i = i + 1;
            assert(s@ =~= open + chisel_ports(pm.take(i as int)));
        }
        assert(pm.take(ports@.len() as int) =~= pm);
        s.append("  })\n");
        assert(s@ =~= head + chisel_io(pm));
    } else {
        assert(s@ =~= head + chisel_io(pm));
    }
    s.append("\n\n// User code\n\n");
    s.append("}");
    s
}

impl DeclareChisel for Component {
    fn declare(&self) -> (r: Result<String>)
        ensures
            r matches Ok(s) && s@ == chisel_comp_decl(self@),
    {
        Ok(chisel_comp_text(self))
    }
}

impl Analyze for Component {
    fn list_record_types(&self) -> (r: Vec<Type>)
        ensures
            type_models(r@) == chisel_port_records(self@.ports),
    {
        let ports = self.ports();
        let ghost pm = port_models(ports@);
        let mut result: Vec<Type> = Vec::new();
        assert(pm.take(0) =~= Seq::<PortModel>::empty());
        assert(type_models(result@) =~= Seq::<TypeModel>::empty());
        let mut i: usize = 0;
        while i < ports.len()
            invariant
                i <= ports@.len(),
                pm == port_models(ports@),
                type_models(result@) == chisel_port_records(pm.take(i as int)),
            decreases ports@.len() - i,
        {
            let p = &ports[i];
            proof {
                assert(pm.take(i + 1).drop_last() =~= pm.take(i as int));
                assert(pm.take(i + 1).last() == p@);
            }
            let ghost before = type_models(result@);
            match p.typ() {
                Type::Record(_) => {
                    push_type(&mut result, p.typ().duplicate());
                },
                _ => {},
            }
            i = i + 1;
            assert(type_models(result@) =~= chisel_port_records(pm.take(i as int)));
        }
        assert(pm.take(ports@.len() as int) =~= pm);
        result
    }
}

/// Declaring components in order: the record types of the ports of each,
/// then the module itself.
pub open spec fn chisel_components_state(cs: Seq<ComponentModel>) -> PackageState
    decreases cs.len(),
{
    if cs.len() == 0 {
        empty_state()
    } else {
        let st = add_types(Dialect::Chisel, chisel_components_state(cs.drop_last()), chisel_port_records(cs.last().ports));
        if st.conflict is Some {
            st
        } else {
            PackageState { text: st.text + chisel_comp_decl(cs.last()) + "\n\n"@, ..st }
        }
    }
}

/// The declaration of a package with its components, when no two
/// different types share a name.
pub open spec fn chisel_package_text(identifier: Seq<char>, cs: Seq<ComponentModel>) -> Seq<char> {
    "package "@ + identifier + ";\n\nimport chisel3._ \n\n"@ + chisel_components_state(cs).text
}

/// A conflict met in a prefix of the components is the conflict of them
/// all.
pub proof fn lemma_chisel_components_prefix(cs: Seq<ComponentModel>, k: int)
    requires
        0 <= k <= cs.len(),
        chisel_components_state(cs.take(k)).conflict is Some,
    ensures
        chisel_components_state(cs) == chisel_components_state(cs.take(k)),
    decreases cs.len(),
{
    if k == cs.len() {
        assert(cs.take(k) =~= cs);
    } else {
        assert(cs.drop_last().take(k) =~= cs.take(k));
        lemma_chisel_components_prefix(cs.drop_last(), k);
        lemma_add_types_stuck(Dialect::Chisel, chisel_components_state(cs.drop_last()), chisel_port_records(cs.last().ports));
    }
}

impl DeclareChisel for Package {
    fn declare(&self) -> (r: Result<String>)
        ensures
            match chisel_components_state(component_models(self.components@)).conflict {
                Some(id) => r matches Err(Error::BackEndError(m)) && m@ == "Type name conflict: "@ + id,
                None => r matches Ok(t) && t@ == chisel_package_text(self.identifier@, component_models(self.components@)),
            },
    {
        let ghost cms = component_models(self.components@);
        let mut declared: Vec<Type> = Vec::new();
        let mut s = String::from_str("package ");
        s.append(self.identifier.as_str());
        s.append(";\n\nimport chisel3._ \n\n");
        let ghost head = s@;
        assert(cms.take(0) =~= Seq::<ComponentModel>::empty());
        assert(type_models(declared@) =~= Seq::<TypeModel>::empty());
        assert(s@ =~= head + chisel_components_state(cms.take(0)).text);
        let mut ci: usize = 0;
        while ci < self.components.len()
            invariant
                ci <= self.components@.len(),
                cms == component_models(self.components@),
                chisel_components_state(cms.take(ci as int)).conflict is None,
                chisel_components_state(cms.take(ci as int)).declared == type_models(declared@),
                s@ == head + chisel_components_state(cms.take(ci as int)).text,
            decreases self.components@.len() - ci,
        {
            let c = &self.components[ci];
            assert(cms[ci as int] == c@);
            let recs = c.list_record_types();
            let ghost st0 = chisel_components_state(cms.take(ci as int));
            match declare_record_types(Dialect::Chisel, &recs, &mut declared, &mut s, Ghost(st0), Ghost(head)) {
                Some(e) => {
                    proof {
                        assert(cms.take(ci + 1).drop_last() =~= cms.take(ci as int));
                        assert(cms.take(ci + 1).last() == cms[ci as int]);
                        lemma_chisel_components_prefix(cms, ci + 1);
                    }
                    return Err(Error::BackEndError(e));
                },
                None => {},
            }
            proof {
                assert(cms.take(ci + 1).drop_last() =~= cms.take(ci as int));
                assert(cms.take(ci + 1).last() == cms[ci as int]);
            }
            let ct = chisel_comp_text(c);
            s.append(ct.as_str());
            s.append("\n\n");
            ci = ci + 1;
        }
        assert(cms.take(self.components@.len() as int) =~= cms);
        Ok(s)
    }
}

/// A package declares each type identifier at most once.
pub proof fn lemma_chisel_package_ids_unique(cs: Seq<ComponentModel>)
    ensures
        ids_unique(Dialect::Chisel, chisel_components_state(cs).declared),
    decreases cs.len(),
{
    if cs.len() > 0 {
        lemma_chisel_package_ids_unique(cs.drop_last());
        lemma_add_types_ids_unique(Dialect::Chisel, chisel_components_state(cs.drop_last()), chisel_port_records(cs.last().ports));
    }
}

} // verus!
