//! Configuration of the VHDL back-end.

use vstd::prelude::*;
use crate::error::{Error, Result};
use crate::phys::opt_view;
use crate::hdl::{
    Component, ComponentModel, Package, port_models, component_models, type_has_reversed,
    append_nested, cat, cat_names, field_models, fields_have_reversed, flip, lemma_field_models, Field,
    FieldModel, Mode, Port, PortModel, Record, RecordModel, Type, TypeModel,
};
use crate::packages::{
    add_types, declare_record_types, empty_state, ids_unique, lemma_add_types_ids_unique, lemma_add_types_stuck, type_models, Dialect, PackageState,
};
use crate::text::{decimal, same_text};

verus! {

/// Abstraction levels of generated VHDL.
#[derive(Debug, Clone, Copy, PartialEq, Eq, Structural)]
pub enum AbstractionLevel {
    /// The canonical representation of streamlets as components.
    Canonical,
    /// Canonical components wrapping a more user-friendly version.
    Fancy,
}

impl Default for AbstractionLevel {
    fn default() -> (a: AbstractionLevel)
        ensures
            a == AbstractionLevel::Fancy,
    {
        AbstractionLevel::Fancy
    }
}

impl AbstractionLevel {
    /// The level written `canon` or `fancy`; fails with the text otherwise.
    pub fn from_text(s: &str) -> (r: Result<AbstractionLevel>)
        ensures
            s@ == "canon"@ ==> r == Ok::<AbstractionLevel, Error>(AbstractionLevel::Canonical),
            s@ == "fancy"@ ==> r == Ok::<AbstractionLevel, Error>(AbstractionLevel::Fancy),
            s@ != "canon"@ && s@ != "fancy"@ ==> (r matches Err(Error::InvalidArgument(m)) && m@ == s@),
    {
        proof {
            reveal_strlit("canon");
            reveal_strlit("fancy");
            assert("canon"@[0] != "fancy"@[0]);
        }
        if same_text(s, "canon") {
            Ok(AbstractionLevel::Canonical)
        } else if same_text(s, "fancy") {
            Ok(AbstractionLevel::Fancy)
        } else {
            Err(Error::InvalidArgument(s.to_owned()))
        }
    }
}

/// Configuration of the VHDL back-end: the abstraction level and the
/// suffix of generated files.
#[derive(Debug, PartialEq)]
pub struct VHDLConfig {
    abstraction: Option<AbstractionLevel>,
    suffix: Option<String>,
}

impl VHDLConfig {
    /// A configuration with the given options.
    pub fn new(abstraction: Option<AbstractionLevel>, suffix: Option<String>) -> (c: VHDLConfig)
        ensures
            c.abstraction_of() == abstraction,
            c.suffix_of() == opt_view(suffix),
    {
        VHDLConfig { abstraction, suffix }
    }

    /// The abstraction level that was chosen, if any.
    pub closed spec fn abstraction_of(&self) -> Option<AbstractionLevel> {
        self.abstraction
    }

    /// The suffix that was chosen, if any.
    pub closed spec fn suffix_of(&self) -> Option<Seq<char>> {
        opt_view(self.suffix)
    }

    /// The abstraction level: the chosen one, `Fancy` by default.
    pub fn abstraction(&self) -> (a: AbstractionLevel)
        ensures
            a == (match self.abstraction_of() {
                Some(x) => x,
                None => AbstractionLevel::Fancy,
            }),
    {
        match self.abstraction {
            Some(a) => a,
            None => AbstractionLevel::Fancy,
        }
    }

    /// The suffix of generated files, if any.
    pub fn suffix(&self) -> (s: Option<String>)
        ensures
            opt_view(s) == self.suffix_of(),
    {
        match &self.suffix {
            Some(x) => Some(x.clone()),
            None => None,
        }
    }
}

impl Default for VHDLConfig {
    fn default() -> (c: VHDLConfig)
        ensures
            c.suffix_of() == Some("gen"@),
            c.abstraction_of() == Some(AbstractionLevel::Canonical),
    {
        VHDLConfig { suffix: Some(String::from_str("gen")), abstraction: Some(AbstractionLevel::Canonical) }
    }
}

/// The VHDL back-end, with its configuration.
#[derive(Debug, PartialEq)]
pub struct VHDLBackEnd {
    config: VHDLConfig,
}

impl VHDLBackEnd {
    /// The back-end with a configuration.
    pub fn from(config: VHDLConfig) -> (b: VHDLBackEnd)
        ensures
            b.config_of() == config,
    {
        VHDLBackEnd { config }
    }

    /// The configuration of the back-end.
    pub closed spec fn config_of(&self) -> VHDLConfig {
        self.config
    }

    /// The configuration of the back-end.
    pub fn config(&self) -> (c: &VHDLConfig)
        ensures
            *c == self.config_of(),
    {
        &self.config
    }
}

impl Default for VHDLBackEnd {
    fn default() -> (b: VHDLBackEnd)
        ensures
            b.config_of().suffix_of() == Some("gen"@),
            b.config_of().abstraction_of() == Some(AbstractionLevel::Canonical),
    {
        VHDLBackEnd { config: VHDLConfig::default() }
    }
}

// ---------------------------------------------------------------------
// Declarations of the common hardware representation.

/// Declarations of ports and components.
pub trait Declare {
    /// Whether this item can be declared.
    spec fn declarable(&self) -> bool;

    /// The declaration of this item.
    fn declare(&self) -> Result<String>
        requires
            self.declarable(),
    ;
}

/// Declarations of types.
pub trait DeclareType {
    /// Whether this type can be declared.
    spec fn declarable(&self) -> bool;

    /// The declaration of this type; a root type names the halves that a
    /// reversed field splits it into `dn` and `up`.
    fn declare(&self, is_root_type: bool) -> Result<String>
        requires
            self.declarable(),
    ;
}

/// Declarations of packages.
pub trait DeclareLibrary {
    /// Whether this package can be declared.
    spec fn declarable(&self) -> bool;

    /// The declaration of this package.
    fn declare(&self, abstraction: AbstractionLevel) -> Result<String>
        requires
            self.declarable(),
    ;
}

/// Identifiers in VHDL.
pub trait VHDLIdentifier {
    /// The VHDL identifier of this item.
    fn vhdl_identifier(&self) -> Result<String>;
}

/// Splitting into the part that flows downstream and the part that flows
/// upstream, since VHDL has no bundles of wires in opposite directions.
pub trait Split {
    /// The downstream part and the upstream part, where there is one.
    fn split(&self) -> (Option<Self>, Option<Self>) where Self: Sized;
}

/// Listing the record types that an item uses.
pub trait Analyze {
    /// The record types used, outer ones first.
    fn list_record_types(&self) -> Vec<Type>;
}

/// The VHDL word of a port mode.
pub open spec fn vhdl_mode(m: Mode) -> Seq<char> {
    match m {
        Mode::In => "in"@,
        Mode::Out => "out"@,
    }
}

/// The downstream and upstream parts of a type: a record splits into
/// records; anything else is downstream only.
pub open spec fn split_type(t: TypeModel) -> (Option<TypeModel>, Option<TypeModel>)
    decreases t,
{
    match t {
        TypeModel::Record(r) => {
            let (d, u) = split_record(r);
            (
                match d { Some(x) => Some(TypeModel::Record(x)), None => None },
                match u { Some(x) => Some(TypeModel::Record(x)), None => None },
            )
        },
        _ => (Some(t), None),
    }
}

/// The downstream and upstream parts of a record: the parts of its fields,
/// under the same name; a part without fields is none.
pub open spec fn split_record(r: RecordModel) -> (Option<RecordModel>, Option<RecordModel>)
    decreases r,
{
    let (d, u) = split_fields(r.fields);
    (
        if d.len() == 0 { None } else { Some(RecordModel { identifier: r.identifier, fields: d }) },
        if u.len() == 0 { None } else { Some(RecordModel { identifier: r.identifier, fields: u }) },
    )
}

/// The downstream and upstream parts of fields, in order.
pub open spec fn split_fields(f: Seq<FieldModel>) -> (Seq<FieldModel>, Seq<FieldModel>)
    decreases f,
{
    if f.len() == 0 {
        (Seq::empty(), Seq::empty())
    } else {
        let (d, u) = split_fields(f.subrange(0, f.len() - 1));
        let (fd, fu) = split_field(f.last());
        (
            match fd { Some(x) => d.push(x), None => d },
            match fu { Some(x) => u.push(x), None => u },
        )
    }
}

/// The downstream and upstream parts of a field: the parts of its type as
/// forward fields, swapped where the field itself is reversed.
pub open spec fn split_field(f: FieldModel) -> (Option<FieldModel>, Option<FieldModel>)
    decreases f,
{
    let (d, u) = split_type(f.typ);
    let dn = match d { Some(t) => Some(FieldModel { name: f.name, typ: t, reversed: false }), None => None };
    let up = match u { Some(t) => Some(FieldModel { name: f.name, typ: t, reversed: false }), None => None };
    if f.reversed { (up, dn) } else { (dn, up) }
}

/// The VHDL text of a bit vector of `w` bits; no bits count as one.
pub open spec fn bitvec_text(w: nat) -> Seq<char> {
    "std_logic_vector("@ + decimal(if w == 0 { 0 } else { (w - 1) as nat }) + " downto 0)"@
}

/// The VHDL identifier of a type: a record is named by its type, other
/// types are written out.
pub open spec fn vhdl_id(t: TypeModel) -> Seq<char> {
    match t {
        TypeModel::Bit => "std_logic"@,
        TypeModel::BitVec(w) => bitvec_text(w),
        TypeModel::Record(r) => cat(r.identifier, "type"@),
    }
}

/// The lines that declare fields.
pub open spec fn fields_decl(f: Seq<FieldModel>) -> Seq<char>
    decreases f.len(),
{
    if f.len() == 0 {
        Seq::empty()
    } else {
        fields_decl(f.drop_last()) + "  "@ + f.last().name + " : "@ + vhdl_id(f.last().typ) + ";\n"@
    }
}

/// The declaration of a record.
pub open spec fn record_decl(r: RecordModel) -> Seq<char> {
    "record "@ + cat(r.identifier, "type"@) + "\n"@ + fields_decl(r.fields) + "end record;"@
}

/// The declaration of a type: a record with a reversed field is declared
/// as its two halves.
pub open spec fn type_decl(t: TypeModel, is_root: bool) -> Seq<char> {
    match t {
        TypeModel::Record(r) => if fields_have_reversed(r.fields) {
            match split_record(r) {
                (Some(d), Some(u)) => record_decl(append_nested(d, if is_root { "dn"@ } else { Seq::empty() }))
                    + "\n\n"@ + record_decl(append_nested(u, if is_root { "up"@ } else { Seq::empty() })),
                _ => Seq::empty(),
            }
        } else {
            record_decl(r)
        },
        _ => vhdl_id(t),
    }
}

/// Whether a type can be declared: a record with a reversed field has both
/// halves.
pub open spec fn splits_whole(t: TypeModel) -> bool {
    match t {
        TypeModel::Record(r) => fields_have_reversed(r.fields) ==> (split_record(r).0 is Some && split_record(r).1 is Some),
        _ => true,
    }
}

fn push_decimal_text(s: &mut String, n: usize)
    ensures
        final(s)@ == old(s)@ + decimal(n as nat),
{
    crate::text::push_decimal(s, n);
}

impl VHDLIdentifier for Mode {
    fn vhdl_identifier(&self) -> (r: Result<String>)
        ensures
            r matches Ok(s) && s@ == vhdl_mode(*self),
    {
        match self {
            Mode::In => Ok(String::from_str("in")),
            Mode::Out => Ok(String::from_str("out")),
        }
    }
}

pub fn vhdl_id_of(t: &Type) -> (s: String)
    ensures
        s@ == vhdl_id(t@),
{
    match t {
        Type::Bit => String::from_str("std_logic"),
        Type::BitVec { width } => {
            let mut s = String::from_str("std_logic_vector(");
            push_decimal_text(&mut s, if *width == 0 { 0 } else { *width - 1 });
            s.append(" downto 0)");
            s
        },
        Type::Record(r) => cat_names(r.identifier.as_str(), "type"),
    }
}

impl VHDLIdentifier for Type {
    fn vhdl_identifier(&self) -> (r: Result<String>)
        ensures
            r matches Ok(s) && s@ == vhdl_id(self@),
    {
        Ok(vhdl_id_of(self))
    }
}

impl VHDLIdentifier for Record {
    fn vhdl_identifier(&self) -> (r: Result<String>)
        ensures
            r matches Ok(s) && s@ == cat(self@.identifier, "type"@),
    {
        Ok(cat_names(self.identifier.as_str(), "type"))
    }
}

fn declare_rec(rec: &Record) -> (s: String)
    ensures
        s@ == record_decl(rec@),
{
    let ghost fm = field_models(rec.fields@);
    proof { lemma_field_models(rec.fields@); }
    let mut s = String::from_str("record ");
    let id = cat_names(rec.identifier.as_str(), "type");
    s.append(id.as_str());
    s.append("\n");
    let ghost head = s@;
    let mut i: usize = 0;
    assert(fields_decl(fm.take(0)) =~= Seq::<char>::empty());
    while i < rec.fields.len()
        invariant
            i <= rec.fields@.len(),
            fm == field_models(rec.fields@),
            fm.len() == rec.fields@.len(),
            forall|k: int| 0 <= k < rec.fields@.len() ==> #[trigger] fm[k] == rec.fields@[k]@,
            s@ == head + fields_decl(fm.take(i as int)),
        decreases rec.fields@.len() - i,
    {
        let f = &rec.fields[i];
        s.append("  ");
        s.append(f.name.as_str());
        s.append(" : ");
        let t = vhdl_id_of(&f.typ);
        s.append(t.as_str());
        s.append(";\n");
        proof {
            assert(fm.take(i + 1).drop_last() =~= fm.take(i as int));
            assert(fm.take(i + 1).last() == fm[i as int]);
        }
        i = i + 1;
        assert(s@ =~= head + fields_decl(fm.take(i as int)));
    }
    assert(fm.take(rec.fields@.len() as int) =~= fm);
    s.append("end record;");
    s
}

impl DeclareType for Type {
    open spec fn declarable(&self) -> bool {
        splits_whole(self@)
    }

    fn declare(&self, is_root: bool) -> (r: Result<String>)
        ensures
            r matches Ok(s) && s@ == type_decl(self@, is_root),
    {
        match self {
            Type::Record(rec) => {
                if rec.has_reversed() {
                    let (dn, up) = rec.split();
                    match (dn, up) {
                        (Some(d), Some(u)) => {
                            let wd = if is_root { "dn" } else { "" };
                            let wu = if is_root { "up" } else { "" };
                            proof { reveal_strlit(""); }
                            assert(wd@ == (if is_root { "dn"@ } else { Seq::<char>::empty() }));
                            assert(wu@ == (if is_root { "up"@ } else { Seq::<char>::empty() }));
                            let sd = d.append_name_nested(wd);
                            let su = u.append_name_nested(wu);
                            assert(self@ == TypeModel::Record(rec@));
                            assert(split_record(rec@) == (Some(d@), Some(u@)));
                            let mut s = declare_rec(&sd);
                            s.append("\n\n");
                            let t = declare_rec(&su);
                            s.append(t.as_str());
                            Ok(s)
                        },
                        _ => {
                            assert(false);
                            Ok(String::new())
                        },
                    }
                } else {
                    Ok(declare_rec(rec))
                }
            },
            _ => Ok(vhdl_id_of(self)),
        }
    }
}

impl Split for Type {
    fn split(&self) -> (r: (Option<Type>, Option<Type>))
        ensures
            split_type(self@) == (
                match r.0 { Some(t) => Some(t@), None => None::<TypeModel> },
                match r.1 { Some(t) => Some(t@), None => None::<TypeModel> },
            ),
        decreases self,
    {
        match self {
            Type::Record(rec) => {
                let (d, u) = rec.split();
                (
                    match d { Some(x) => Some(Type::Record(x)), None => None },
                    match u { Some(x) => Some(Type::Record(x)), None => None },
                )
            },
            _ => (Some(self.duplicate()), None),
        }
    }
}

impl Split for Field {
    fn split(&self) -> (r: (Option<Field>, Option<Field>))
        ensures
            split_field(self@) == (
                match r.0 { Some(f) => Some(f@), None => None::<FieldModel> },
                match r.1 { Some(f) => Some(f@), None => None::<FieldModel> },
            ),
        decreases self,
    {
        let (d, u) = self.typ.split();
        let dn = match d {
            Some(t) => Some(Field::new(self.name.as_str(), t, false)),
            None => None,
        };
        let up = match u {
            Some(t) => Some(Field::new(self.name.as_str(), t, false)),
            None => None,
        };
        if self.reversed { (up, dn) } else { (dn, up) }
    }
}

impl Split for Record {
    fn split(&self) -> (r: (Option<Record>, Option<Record>))
        ensures
            split_record(self@) == (
                match r.0 { Some(x) => Some(x@), None => None::<RecordModel> },
                match r.1 { Some(x) => Some(x@), None => None::<RecordModel> },
            ),
        decreases self,
    {
        let ghost fm = field_models(self.fields@);
        proof { lemma_field_models(self.fields@); }
        let mut down = Record::new_empty(self.identifier.as_str());
        let mut up = Record::new_empty(self.identifier.as_str());
        let mut i: usize = 0;
        assert(fm.take(0) =~= Seq::<FieldModel>::empty());
        while i < self.fields.len()
            invariant
                i <= self.fields@.len(),
                fm == field_models(self.fields@),
                fm.len() == self.fields@.len(),
                forall|k: int| 0 <= k < self.fields@.len() ==> #[trigger] fm[k] == self.fields@[k]@,
                down@.identifier == self@.identifier,
                up@.identifier == self@.identifier,
                (down@.fields, up@.fields) == split_fields(fm.take(i as int)),
            decreases self.fields@.len() - i,
        {
            proof { assert(fm.take(i + 1).subrange(0, i as int) =~= fm.take(i as int)); }
            assert(decreases_to!(self => self.fields@[i as int]));
            let (df, uf) = self.fields[i].split();
            match df {
                Some(x) => down.insert(x),
                None => {},
            }
            match uf {
                Some(x) => up.insert(x),
                None => {},
            }
            i = i + 1;
        }
        assert(fm.take(self.fields@.len() as int) =~= fm);
        let d = if down.is_empty() { None } else { Some(down) };
        let u = if up.is_empty() { None } else { Some(up) };
        (d, u)
    }
}

/// The downstream and upstream ports of a port: named with `dn` and `up`,
/// the upstream one in the other mode, record types renamed likewise.
pub open spec fn split_port(p: PortModel) -> (Option<PortModel>, Option<PortModel>) {
    let (d, u) = split_type(p.typ);
    (
        match d {
            Some(t) => Some(PortModel {
                identifier: cat(p.identifier, "dn"@),
                mode: p.mode,
                typ: match t { TypeModel::Record(r) => TypeModel::Record(append_nested(r, "dn"@)), _ => t },
                doc: None,
            }),
            None => None,
        },
        match u {
            Some(t) => Some(PortModel {
                identifier: cat(p.identifier, "up"@),
                mode: flip(p.mode),
                typ: match t { TypeModel::Record(r) => TypeModel::Record(append_nested(r, "up"@)), _ => t },
                doc: None,
            }),
            None => None,
        },
    )
}

fn renamed(t: Type, with: &str) -> (r: Type)
    ensures
        r@ == (match t@ { TypeModel::Record(x) => TypeModel::Record(append_nested(x, with@)), _ => t@ }),
{
    match t {
        Type::Record(x) => Type::Record(x.append_name_nested(with)),
        _ => t,
    }
}

impl Split for Port {
    fn split(&self) -> (r: (Option<Port>, Option<Port>))
        ensures
            split_port(self@) == (
                match r.0 { Some(x) => Some(x@), None => None::<PortModel> },
                match r.1 { Some(x) => Some(x@), None => None::<PortModel> },
            ),
    {
        let (d, u) = self.typ().split();
        let dn = match d {
            Some(t) => {
                let name = cat_names(self.identifier(), "dn");
                Some(Port::new(name.as_str(), self.mode(), renamed(t, "dn")))
            },
            None => None,
        };
        let up = match u {
            Some(t) => {
                let name = cat_names(self.identifier(), "up");
                Some(Port::new(name.as_str(), self.mode().reversed(), renamed(t, "up")))
            },
            None => None,
        };
        (dn, up)
    }
}

/// The declaration of a port.
pub open spec fn port_decl(p: PortModel) -> Seq<char> {
    p.identifier + " : "@ + vhdl_mode(p.mode) + " "@ + vhdl_id(p.typ)
}

impl Declare for Port {
    open spec fn declarable(&self) -> bool {
        true
    }

    fn declare(&self) -> (r: Result<String>)
        ensures
            r matches Ok(s) && s@ == port_decl(self@),
    {
        Ok(port_decl_text(self))
    }
}

fn port_decl_text(p: &Port) -> (s: String)
    ensures
        s@ == port_decl(p@),
{
    let mut s = p.identifier().to_owned();
    s.append(" : ");
    let m = match p.mode() {
        Mode::In => "in",
        Mode::Out => "out",
    };
    s.append(m);
    s.append(" ");
    let t = vhdl_id_of(p.typ());
    s.append(t.as_str());
    s
}

impl VHDLIdentifier for Port {
    fn vhdl_identifier(&self) -> (r: Result<String>)
        ensures
            r matches Ok(s) && s@ == self@.identifier,
    {
        Ok(self.identifier().to_owned())
    }
}

/// The record types that a type uses, outer ones first.
pub open spec fn record_types(t: TypeModel) -> Seq<TypeModel>
    decreases t,
{
    match t {
        TypeModel::Record(r) => seq![t] + field_record_types(r.fields),
        _ => Seq::empty(),
    }
}

/// The record types that fields use, in the order of the fields.
pub open spec fn field_record_types(f: Seq<FieldModel>) -> Seq<TypeModel>
    decreases f,
{
    if f.len() == 0 {
        Seq::empty()
    } else {
        field_record_types(f.subrange(0, f.len() - 1)) + record_types(f.last().typ)
    }
}

/// The record types that ports use, in the order of the ports.
pub open spec fn port_record_types(p: Seq<PortModel>) -> Seq<TypeModel>
    decreases p.len(),
{
    if p.len() == 0 {
        Seq::empty()
    } else {
        port_record_types(p.drop_last()) + record_types(p.last().typ)
    }
}

fn record_types_of(t: &Type) -> (r: Vec<Type>)
    ensures
        type_models(r@) == record_types(t@),
    decreases t,
{
    match t {
        Type::Record(rec) => {
            let ghost fm = field_models(rec.fields@);
            proof { lemma_field_models(rec.fields@); }
            let mut result: Vec<Type> = Vec::new();
            result.push(t.duplicate());
            assert(type_models(result@) =~= seq![t@] + field_record_types(fm.take(0)));
            let mut i: usize = 0;
            while i < rec.fields.len()
                invariant
                    i <= rec.fields@.len(),
                    fm == field_models(rec.fields@),
                    fm.len() == rec.fields@.len(),
                    forall|k: int| 0 <= k < rec.fields@.len() ==> #[trigger] fm[k] == rec.fields@[k]@,
                    type_models(result@) == seq![t@] + field_record_types(fm.take(i as int)),
                    *t == Type::Record(*rec),
                decreases rec.fields@.len() - i,
            {
                proof { assert(fm.take(i + 1).subrange(0, i as int) =~= fm.take(i as int)); }
                assert(decreases_to!(*t => (*t)->0));
                assert(decreases_to!(*rec => rec.fields@[i as int].typ));
                let mut sub = record_types_of(&rec.fields[i].typ);
                let ghost before = result@;
                let ghost added = sub@;
                result.append(&mut sub);
                assert(type_models(result@) =~= type_models(before) + type_models(added));
                i = i + 1;
            }
            assert(fm.take(rec.fields@.len() as int) =~= fm);
            result
        },
        _ => {
            let r: Vec<Type> = Vec::new();
            assert(type_models(r@) =~= Seq::<TypeModel>::empty());
            r
        },
    }
}

impl Analyze for Type {
    fn list_record_types(&self) -> (r: Vec<Type>)
        ensures
            type_models(r@) == record_types(self@),
    {
        record_types_of(self)
    }
}

impl Analyze for Port {
    fn list_record_types(&self) -> (r: Vec<Type>)
        ensures
            type_models(r@) == record_types(self@.typ),
    {
        record_types_of(self.typ())
    }
}

fn port_record_types_of(ports: &Vec<Port>) -> (r: Vec<Type>)
    ensures
        type_models(r@) == port_record_types(port_models(ports@)),
{
    let ghost pm = port_models(ports@);
    let mut result: Vec<Type> = Vec::new();
    assert(type_models(result@) =~= port_record_types(pm.take(0)));
    let mut i: usize = 0;
    while i < ports.len()
        invariant
            i <= ports@.len(),
            pm == port_models(ports@),
            type_models(result@) == port_record_types(pm.take(i as int)),
        decreases ports@.len() - i,
    {
        proof { assert(pm.take(i + 1).drop_last() =~= pm.take(i as int)); }
        let mut sub = record_types_of(ports[i].typ());
        let ghost before = result@;
        let ghost added = sub@;
        result.append(&mut sub);
        assert(type_models(result@) =~= type_models(before) + type_models(added));
        i = i + 1;
    }
    assert(pm.take(ports@.len() as int) =~= pm);
    result
}

impl Analyze for Component {
    fn list_record_types(&self) -> (r: Vec<Type>)
        ensures
            type_models(r@) == port_record_types(self@.ports),
    {
        port_record_types_of(self.ports())
    }
}

/// The text of a port among the ports of a component: a port whose type
/// has a reversed field is written as its two halves.
pub open spec fn port_text(p: PortModel) -> Seq<char> {
    if type_has_reversed(p.typ) {
        match split_port(p) {
            (Some(d), Some(u)) => port_decl(d) + ";\n"@ + "    "@ + port_decl(u),
            _ => Seq::empty(),
        }
    } else {
        port_decl(p)
    }
}

/// The lines of ports that are followed by another.
pub open spec fn ports_items(ps: Seq<PortModel>) -> Seq<char>
    decreases ps.len(),
{
    if ps.len() == 0 {
        Seq::empty()
    } else {
        ports_items(ps.drop_last()) + "    "@ + port_text(ps.last()) + ";\n"@
    }
}

/// The port block of a component; none without ports.
pub open spec fn ports_block(ps: Seq<PortModel>) -> Seq<char> {
    if ps.len() == 0 {
        Seq::empty()
    } else {
        "  port(\n"@ + ports_items(ps.drop_last()) + "    "@ + port_text(ps.last()) + "\n"@ + "  );\n"@
    }
}

/// The declaration of a component.
pub open spec fn component_decl(c: ComponentModel) -> Seq<char> {
    "component "@ + c.identifier + "\n"@ + ports_block(c.ports) + "end component;"@
}

/// Whether a port can be declared: a type with a reversed field has both
/// halves.
pub open spec fn port_declarable(p: PortModel) -> bool {
    splits_whole(p.typ)
}

fn port_text_of(p: &Port) -> (s: String)
    requires
        port_declarable(p@),
    ensures
        s@ == port_text(p@),
{
    if p.has_reversed() {
        let (dn, up) = p.split();
        match (dn, up) {
            (Some(d), Some(u)) => {
                let mut s = port_decl_text(&d);
                s.append(";\n");
                s.append("    ");
                let t = port_decl_text(&u);
                s.append(t.as_str());
                s
            },
            _ => {
                assert(false);
                String::new()
            },
        }
    } else {
        port_decl_text(p)
    }
}

impl Declare for Component {
    open spec fn declarable(&self) -> bool {
        forall|i: int| 0 <= i < self@.ports.len() ==> port_declarable(#[trigger] self@.ports[i])
    }

    fn declare(&self) -> (r: Result<String>)
        ensures
            r matches Ok(s) && s@ == component_decl(self@),
    {
        Ok(component_text(self))
    }
}

fn component_text(c: &Component) -> (s: String)
    requires
        c.declarable(),
    ensures
        s@ == component_decl(c@),
{
    let ports = c.ports();
    let ghost pm = port_models(ports@);
    let mut s = String::from_str("component ");
    s.append(c.identifier());
    s.append("\n");
    let ghost head = s@;
    let n = ports.len();
    if n > 0 {
        s.append("  port(\n");
        let ghost open = s@;
        let mut i: usize = 0;
        assert(ports_items(pm.take(0)) =~= Seq::<char>::empty());
        while i + 1 < n
            invariant
                n == ports@.len(),
                n > 0,
                i < n,
                pm == port_models(ports@),
                pm == c@.ports,
                c.declarable(),
                s@ == open + ports_items(pm.take(i as int)),
            decreases n - i,
        {
            proof { assert(pm.take(i + 1).drop_last() =~= pm.take(i as int)); }
            assert(pm[i as int] == ports@[i as int]@);
            assert(port_declarable(c@.ports[i as int]));
            s.append("    ");
            let t = port_text_of(&ports[i]);
            s.append(t.as_str());
            s.append(";\n");
            i = i + 1;
        }
        assert(pm.take(i as int) =~= pm.drop_last());
        assert(pm[i as int] == ports@[i as int]@);
        assert(port_declarable(c@.ports[i as int]));
        s.append("    ");
        let t = port_text_of(&ports[i]);
        s.append(t.as_str());
        s.append("\n");
        s.append("  );\n");
        assert(s@ =~= head + ports_block(pm));
    } else {
        assert(s@ =~= head + ports_block(pm));
    }
    s.append("end component;");
    s
}

/// Declaring components in order: the record types of each, then the
/// component itself.
pub open spec fn components_state(cs: Seq<ComponentModel>) -> PackageState
    decreases cs.len(),
{
    if cs.len() == 0 {
        empty_state()
    } else {
        let st = add_types(Dialect::Vhdl, components_state(cs.drop_last()), port_record_types(cs.last().ports));
        if st.conflict is Some {
            st
        } else {
            PackageState { text: st.text + component_decl(cs.last()) + "\n\n"@, ..st }
        }
    }
}

/// The declaration of a package with its components, when no two
/// different types share a name.
pub open spec fn package_text(identifier: Seq<char>, cs: Seq<ComponentModel>) -> Seq<char> {
    "package "@ + identifier + " is\n\n"@ + components_state(cs).text + "end "@ + identifier + ";"@
}

/// Whether every port and every record type of the components can be
/// declared.
pub open spec fn components_declarable(cs: Seq<ComponentModel>) -> bool {
    &&& forall|i: int, j: int| 0 <= i < cs.len() && 0 <= j < cs[i].ports.len()
        ==> port_declarable(#[trigger] cs[i].ports[j])
    &&& forall|i: int, j: int| 0 <= i < cs.len() && 0 <= j < port_record_types(cs[i].ports).len()
        ==> splits_whole(#[trigger] port_record_types(cs[i].ports)[j])
}

/// A conflict met in a prefix of the components is the conflict of them
/// all.
pub proof fn lemma_components_prefix(cs: Seq<ComponentModel>, k: int)
    requires
        0 <= k <= cs.len(),
        components_state(cs.take(k)).conflict is Some,
    ensures
        components_state(cs) == components_state(cs.take(k)),
    decreases cs.len(),
{
    if k == cs.len() {
        assert(cs.take(k) =~= cs);
    } else {
        assert(cs.drop_last().take(k) =~= cs.take(k));
        lemma_components_prefix(cs.drop_last(), k);
        lemma_add_types_stuck(Dialect::Vhdl, components_state(cs.drop_last()), port_record_types(cs.last().ports));
    }
}

impl DeclareLibrary for Package {
    open spec fn declarable(&self) -> bool {
        components_declarable(component_models(self.components@))
    }

    fn declare(&self, abstraction: AbstractionLevel) -> (r: Result<String>)
        ensures
            match components_state(component_models(self.components@)).conflict {
                Some(id) => r matches Err(Error::BackEndError(m)) && m@ == "Type name conflict: "@ + id,
                None => r matches Ok(t) && t@ == package_text(self.identifier@, component_models(self.components@)),
            },
    {
        let ghost cms = component_models(self.components@);
        let mut declared: Vec<Type> = Vec::new();
        let mut s = String::from_str("package ");
        s.append(self.identifier.as_str());
        s.append(" is\n\n");
        let ghost head = s@;
        assert(cms.take(0) =~= Seq::<ComponentModel>::empty());
        assert(type_models(declared@) =~= Seq::<TypeModel>::empty());
        assert(s@ =~= head + components_state(cms.take(0)).text);
        let mut ci: usize = 0;
        while ci < self.components.len()
            invariant
                ci <= self.components@.len(),
                cms == component_models(self.components@),
                components_declarable(cms),
                components_state(cms.take(ci as int)).conflict is None,
                components_state(cms.take(ci as int)).declared == type_models(declared@),
                s@ == head + components_state(cms.take(ci as int)).text,
            decreases self.components@.len() - ci,
        {
            let c = &self.components[ci];
            assert(cms[ci as int] == c@);
            let recs = c.list_record_types();
            let ghost st0 = components_state(cms.take(ci as int));
            let ghost rts = type_models(recs@);
            proof {
                assert forall|k: int| 0 <= k < recs@.len() implies splits_whole(#[trigger] recs@[k]@) by {
                    assert(rts[k] == recs@[k]@);
                    assert(splits_whole(port_record_types(cms[ci as int].ports)[k]));
                }
            }
            match declare_record_types(Dialect::Vhdl, &recs, &mut declared, &mut s, Ghost(st0), Ghost(head)) {
                Some(e) => {
                    proof {
                        assert(cms.take(ci + 1).drop_last() =~= cms.take(ci as int));
                        assert(cms.take(ci + 1).last() == cms[ci as int]);
                        lemma_components_prefix(cms, ci + 1);
                    }
                    return Err(Error::BackEndError(e));
                },
                None => {},
            }
            proof {
                assert(cms.take(ci + 1).drop_last() =~= cms.take(ci as int));
                assert(cms.take(ci + 1).last() == cms[ci as int]);
                assert forall|i: int| 0 <= i < c@.ports.len() implies port_declarable(#[trigger] c@.ports[i]) by {
                    assert(port_declarable(cms[ci as int].ports[i]));
                }
            }
            let ct = component_text(c);
            s.append(ct.as_str());
            s.append("\n\n");
            ci = ci + 1;
        }
        assert(cms.take(self.components@.len() as int) =~= cms);
        s.append("end ");
        s.append(self.identifier.as_str());
        s.append(";");
        Ok(s)
    }
}

/// A package declares each type identifier at most once.
pub proof fn lemma_package_ids_unique(cs: Seq<ComponentModel>)
    ensures
        ids_unique(Dialect::Vhdl, components_state(cs).declared),
    decreases cs.len(),
{
    if cs.len() > 0 {
        lemma_package_ids_unique(cs.drop_last());
        lemma_add_types_ids_unique(Dialect::Vhdl, components_state(cs.drop_last()), port_record_types(cs.last().ports));
    }
}

/// The halves that a type splits into have no reversed field anywhere:
/// each flows one way only.
pub proof fn lemma_split_type_one_way(t: TypeModel)
    ensures
        split_type(t).0 matches Some(x) ==> !type_has_reversed(x),
        split_type(t).1 matches Some(x) ==> !type_has_reversed(x),
    decreases t,
{
    match t {
        TypeModel::Record(r) => {
            lemma_split_fields_one_way(r.fields);
        },
        _ => {},
    }
}

/// The halves that fields split into have no reversed field anywhere.
pub proof fn lemma_split_fields_one_way(f: Seq<FieldModel>)
    ensures
        !fields_have_reversed(split_fields(f).0),
        !fields_have_reversed(split_fields(f).1),
    decreases f,
{
    if f.len() > 0 {
        let g = f.subrange(0, f.len() - 1);
        lemma_split_fields_one_way(g);
        lemma_split_field_one_way(f.last());
        let (d, u) = split_fields(g);
        let (fd, fu) = split_field(f.last());
        match fd {
            Some(x) => {
                assert(d.push(x).subrange(0, d.len() as int) =~= d);
            },
            None => {},
        }
        match fu {
            Some(x) => {
                assert(u.push(x).subrange(0, u.len() as int) =~= u);
            },
            None => {},
        }
    }
}

/// The halves that a field splits into flow forward and have no reversed
/// field anywhere.
pub proof fn lemma_split_field_one_way(f: FieldModel)
    ensures
        split_field(f).0 matches Some(x) ==> !x.reversed && !type_has_reversed(x.typ),
        split_field(f).1 matches Some(x) ==> !x.reversed && !type_has_reversed(x.typ),
    decreases f,
{
    lemma_split_type_one_way(f.typ);
}

} // verus!
