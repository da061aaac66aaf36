//! The common hardware representation that the back-ends declare: bits,
//! bit vectors and records of fields, ports of components, and packages of
//! components.

use vstd::prelude::*;
use crate::phys::opt_view;
use crate::text::same_text;

verus! {

/// Two names joined with an underscore; an empty one is left out.
pub open spec fn cat(a: Seq<char>, b: Seq<char>) -> Seq<char> {
    if a.len() == 0 { b } else if b.len() == 0 { a } else { a + seq!['_'] + b }
}

/// Two names joined with an underscore; an empty one is left out.
pub fn cat_names(a: &str, b: &str) -> (s: String)
    ensures
        s@ == cat(a@, b@),
{
    if a.unicode_len() == 0 {
        b.to_owned()
    } else if b.unicode_len() == 0 {
        a.to_owned()
    } else {
        let mut s = a.to_owned();
        s.append("_");
        s.append(b);
        proof { reveal_strlit("_"); }
        assert(s@ =~= a@ + seq!['_'] + b@);
        s
    }
}

/// A field of a record, which may flow against the other fields.
#[derive(Debug, PartialEq)]
pub struct Field {
    pub name: String,
    pub typ: Type,
    pub reversed: bool,
}

/// A record type: named fields.
#[derive(Debug, PartialEq)]
pub struct Record {
    pub identifier: String,
    pub fields: Vec<Field>,
}

/// Hardware types.
#[derive(Debug, PartialEq)]
pub enum Type {
    /// A single bit.
    Bit,
    /// A vector of bits.
    BitVec { width: usize },
    /// A record.
    Record(Record),
}

/// The mathematical shape of a hardware type.
pub enum TypeModel {
    Bit,
    BitVec(nat),
    Record(RecordModel),
}

/// The mathematical shape of a record.
pub struct RecordModel {
    pub identifier: Seq<char>,
    pub fields: Seq<FieldModel>,
}

/// The mathematical shape of a field.
pub struct FieldModel {
    pub name: Seq<char>,
    pub typ: TypeModel,
    pub reversed: bool,
}

/// The shape of a type.
pub open spec fn type_model(t: Type) -> TypeModel
    decreases t,
{
    match t {
        Type::Bit => TypeModel::Bit,
        Type::BitVec { width } => TypeModel::BitVec(width as nat),
        Type::Record(r) => TypeModel::Record(record_model(r)),
    }
}

/// The shape of a record.
pub open spec fn record_model(r: Record) -> RecordModel
    decreases r,
{
    RecordModel { identifier: r.identifier@, fields: field_models(r.fields@) }
}

/// The shapes of fields.
pub open spec fn field_models(f: Seq<Field>) -> Seq<FieldModel>
    decreases f,
{
    if f.len() == 0 {
        Seq::empty()
    } else {
        field_models(f.subrange(0, f.len() - 1)).push(
            FieldModel { name: f.last().name@, typ: type_model(f.last().typ), reversed: f.last().reversed },
        )
    }
}

impl View for Type {
    type V = TypeModel;

    open spec fn view(&self) -> TypeModel {
        type_model(*self)
    }
}

impl View for Record {
    type V = RecordModel;

    open spec fn view(&self) -> RecordModel {
        record_model(*self)
    }
}

impl View for Field {
    type V = FieldModel;

    open spec fn view(&self) -> FieldModel {
        FieldModel { name: self.name@, typ: type_model(self.typ), reversed: self.reversed }
    }
}

/// There are as many field shapes as fields, each the shape of its field.
pub proof fn lemma_field_models(f: Seq<Field>)
    ensures
        field_models(f).len() == f.len(),
        forall|i: int| 0 <= i < f.len() ==> #[trigger] field_models(f)[i] == f[i]@,
    decreases f.len(),
{
    if f.len() > 0 {
        lemma_field_models(f.subrange(0, f.len() - 1));
        assert forall|i: int| 0 <= i < f.len() implies #[trigger] field_models(f)[i] == f[i]@ by {
            if i < f.len() - 1 {
                assert(f.subrange(0, f.len() - 1)[i] == f[i]);
            }
        }
    }
}

/// The shapes of one more field.
pub proof fn lemma_field_models_push(f: Seq<Field>, x: Field)
    ensures
        field_models(f.push(x)) == field_models(f).push(x@),
{
    assert(f.push(x).subrange(0, f.len() as int) =~= f);
}

/// Whether a field that flows against the others is in a type, at any
/// depth of records.
pub open spec fn type_has_reversed(t: TypeModel) -> bool
    decreases t,
{
    match t {
        TypeModel::Record(r) => fields_have_reversed(r.fields),
        _ => false,
    }
}

/// Whether a field flows against the others, or holds one that does.
pub open spec fn fields_have_reversed(f: Seq<FieldModel>) -> bool
    decreases f,
{
    if f.len() == 0 {
        false
    } else {
        fields_have_reversed(f.subrange(0, f.len() - 1)) || f.last().reversed || type_has_reversed(f.last().typ)
    }
}

/// A record with a text appended to its name and to the names of all
/// records nested in it.
pub open spec fn append_nested(r: RecordModel, with: Seq<char>) -> RecordModel
    decreases r,
{
    RecordModel { identifier: cat(r.identifier, with), fields: append_nested_fields(r.fields, with) }
}

/// Fields whose record types have a text appended to their names.
pub open spec fn append_nested_fields(f: Seq<FieldModel>, with: Seq<char>) -> Seq<FieldModel>
    decreases f,
{
    if f.len() == 0 {
        Seq::empty()
    } else {
        let last = f.last();
        append_nested_fields(f.subrange(0, f.len() - 1), with).push(match last.typ {
            TypeModel::Record(r) => FieldModel { typ: TypeModel::Record(append_nested(r, with)), ..last },
            _ => last,
        })
    }
}

/// A flattened type: each leaf with the names on its way and whether it
/// flows against the rest.
pub type Flat = (Seq<Seq<char>>, TypeModel, bool);

/// A type flattened to its leaves: a record gives the leaves of each field,
/// with the field's name added to the path and the field's direction;
/// anything else is a leaf.
pub open spec fn flatten_model(t: TypeModel, prefix: Seq<Seq<char>>, reversed: bool) -> Seq<Flat>
    decreases t,
{
    match t {
        TypeModel::Record(r) => flatten_fields(r.fields, prefix),
        _ => seq![(prefix, t, reversed)],
    }
}

/// The leaves of fields.
pub open spec fn flatten_fields(f: Seq<FieldModel>, prefix: Seq<Seq<char>>) -> Seq<Flat>
    decreases f,
{
    if f.len() == 0 {
        Seq::empty()
    } else {
        flatten_fields(f.subrange(0, f.len() - 1), prefix)
            + flatten_model(f.last().typ, prefix.push(f.last().name), f.last().reversed)
    }
}

impl Field {
    /// A field.
    pub fn new(name: &str, typ: Type, reversed: bool) -> (f: Field)
        ensures
            f@ == (FieldModel { name: name@, typ: typ@, reversed }),
    {
        Field { name: name.to_owned(), typ, reversed }
    }

    /// The name of the field.
    pub fn identifier(&self) -> (s: &str)
        ensures
            s@ == self@.name,
    {
        self.name.as_str()
    }

    /// The type of the field.
    pub fn typ(&self) -> (t: &Type)
        ensures
            t@ == self@.typ,
    {
        &self.typ
    }

    /// Whether the field flows against the others.
    pub fn is_reversed(&self) -> (b: bool)
        ensures
            b == self@.reversed,
    {
        self.reversed
    }

    /// The field flowing the other way.
    pub fn reversed(&self) -> (f: Field)
        ensures
            f@ == (FieldModel { reversed: !self@.reversed, ..self@ }),
    {
        Field { name: self.name.clone(), typ: self.typ.duplicate(), reversed: !self.reversed }
    }

    /// A copy of the field.
    pub fn duplicate(&self) -> (f: Field)
        ensures
            f@ == self@,
        decreases self,
    {
        Field { name: self.name.clone(), typ: self.typ.duplicate(), reversed: self.reversed }
    }
}

impl Record {
    /// A record with fields.
    pub fn new(name: &str, fields: Vec<Field>) -> (r: Record)
        ensures
            r@ == (RecordModel { identifier: name@, fields: field_models(fields@) }),
    {
        Record { identifier: name.to_owned(), fields }
    }

    /// A record without fields.
    pub fn new_empty(name: &str) -> (r: Record)
        ensures
            r@ == (RecordModel { identifier: name@, fields: Seq::empty() }),
    {
        let r = Record { identifier: name.to_owned(), fields: Vec::new() };
        assert(field_models(r.fields@) =~= Seq::empty());
        r
    }

    /// A record with a `valid` bit and a reversed `ready` bit.
    pub fn new_empty_stream(name: &str) -> (r: Record)
        ensures
            r@ == (RecordModel {
                identifier: name@,
                fields: seq![
                    FieldModel { name: "valid"@, typ: TypeModel::Bit, reversed: false },
                    FieldModel { name: "ready"@, typ: TypeModel::Bit, reversed: true },
                ],
            }),
    {
        let mut r = Record::new_empty(name);
        r.insert(Field::new("valid", Type::Bit, false));
        r.insert(Field::new("ready", Type::Bit, true));
        assert(r@.fields =~= seq![
            FieldModel { name: "valid"@, typ: TypeModel::Bit, reversed: false },
            FieldModel { name: "ready"@, typ: TypeModel::Bit, reversed: true },
        ]);
        r
    }

    /// Adds a new field.
    pub fn insert_new_field(&mut self, name: &str, typ: Type, reversed: bool)
        ensures
            final(self)@ == (RecordModel {
                identifier: old(self)@.identifier,
                fields: old(self)@.fields.push(FieldModel { name: name@, typ: typ@, reversed }),
            }),
    {
        self.insert(Field::new(name, typ, reversed));
    }

    /// Adds a field.
    pub fn insert(&mut self, field: Field)
        ensures
            final(self)@ == (RecordModel { identifier: old(self)@.identifier, fields: old(self)@.fields.push(field@) }),
    {
        proof { lemma_field_models_push(self.fields@, field); }
        self.fields.push(field);
    }

    /// The name of the record.
    pub fn identifier(&self) -> (s: &str)
        ensures
            s@ == self@.identifier,
    {
        self.identifier.as_str()
    }

    /// The fields of the record.
    pub fn fields(&self) -> (v: &Vec<Field>)
        ensures
            field_models(v@) == self@.fields,
    {
        &self.fields
    }

    /// Whether the record has no fields.
    pub fn is_empty(&self) -> (b: bool)
        ensures
            b == (self@.fields.len() == 0),
    {
        proof { lemma_field_models(self.fields@); }
        self.fields.len() == 0
    }

    /// Whether a field of the record itself flows against the others.
    pub fn has_reversed_field(&self) -> (b: bool)
        ensures
            b == exists|i: int| 0 <= i < self@.fields.len() && (#[trigger] self@.fields[i]).reversed,
    {
        proof { lemma_field_models(self.fields@); }
        let mut i: usize = 0;
        while i < self.fields.len()
            invariant
                i <= self.fields@.len(),
                field_models(self.fields@).len() == self.fields@.len(),
                forall|k: int| 0 <= k < self.fields@.len() ==> #[trigger] field_models(self.fields@)[k] == self.fields@[k]@,
                forall|k: int| 0 <= k < i ==> !(#[trigger] field_models(self.fields@)[k]).reversed,
            decreases self.fields@.len() - i,
        {
            if self.fields[i].reversed {
                assert(field_models(self.fields@)[i as int].reversed);
                return true;
            }
            i = i + 1;
        }
        false
    }

    /// Whether a field flows against the others, at any depth.
    pub fn has_reversed(&self) -> (b: bool)
        ensures
            b == fields_have_reversed(self@.fields),
        decreases self,
    {
        let ghost fm = field_models(self.fields@);
        proof { lemma_field_models(self.fields@); }
        let mut i: usize = 0;
        while i < self.fields.len()
            invariant
                i <= self.fields@.len(),
                fm == field_models(self.fields@),
                fm.len() == self.fields@.len(),
                forall|k: int| 0 <= k < self.fields@.len() ==> #[trigger] fm[k] == self.fields@[k]@,
                !fields_have_reversed(fm.take(i as int)),
            decreases self.fields@.len() - i,
        {
            proof { assert(fm.take(i + 1).subrange(0, i as int) =~= fm.take(i as int)); }
            assert(decreases_to!(self => self.fields@[i as int].typ));
            if self.fields[i].reversed || self.fields[i].typ.has_reversed() {
                proof { lemma_reversed_prefix(fm, i + 1); }
                return true;
            }
            i = i + 1;
        }
        assert(fm.take(self.fields@.len() as int) =~= fm);
        false
    }

    /// This record with a text appended to its name and to the names of
    /// all records nested in it.
    pub fn append_name_nested(&self, with: &str) -> (r: Record)
        ensures
            r@ == append_nested(self@, with@),
        decreases self,
    {
        let ghost fm = field_models(self.fields@);
        proof { lemma_field_models(self.fields@); }
        let name = cat_names(self.identifier.as_str(), with);
        let mut result = Record::new_empty(name.as_str());
        let mut i: usize = 0;
        while i < self.fields.len()
            invariant
                i <= self.fields@.len(),
                fm == field_models(self.fields@),
                fm.len() == self.fields@.len(),
                forall|k: int| 0 <= k < self.fields@.len() ==> #[trigger] fm[k] == self.fields@[k]@,
                result@ == (RecordModel { identifier: cat(self@.identifier, with@), fields: append_nested_fields(fm.take(i as int), with@) }),
            decreases self.fields@.len() - i,
        {
            proof { assert(fm.take(i + 1).subrange(0, i as int) =~= fm.take(i as int)); }
            let f = &self.fields[i];
            let nf = match &f.typ {
                Type::Record(r) => {
                    assert(decreases_to!(self => self.fields@[i as int].typ));
                    Field { name: f.name.clone(), typ: Type::Record(r.append_name_nested(with)), reversed: f.reversed }
                },
                _ => f.duplicate(),
            };
            result.insert(nf);
            i = i + 1;
        }
        assert(fm.take(self.fields@.len() as int) =~= fm);
        result
    }

    /// A copy of the record.
    pub fn duplicate(&self) -> (r: Record)
        ensures
            r@ == self@,
        decreases self,
    {
        let ghost fm = field_models(self.fields@);
        proof { lemma_field_models(self.fields@); }
        let mut result = Record::new_empty(self.identifier.as_str());
        assert(fm.take(0) =~= Seq::<FieldModel>::empty());
        let mut i: usize = 0;
        while i < self.fields.len()
            invariant
                i <= self.fields@.len(),
                fm == field_models(self.fields@),
                fm.len() == self.fields@.len(),
                forall|k: int| 0 <= k < self.fields@.len() ==> #[trigger] fm[k] == self.fields@[k]@,
                result@ == (RecordModel { identifier: self@.identifier, fields: fm.take(i as int) }),
            decreases self.fields@.len() - i,
        {
            assert(decreases_to!(self => self.fields@[i as int]));
            let f = self.fields[i].duplicate();
            result.insert(f);
            assert(fm.take(i + 1) =~= fm.take(i as int).push(fm[i as int]));
            i = i + 1;
        }
        assert(fm.take(self.fields@.len() as int) =~= fm);
        result
    }
}

/// Where some prefix of the fields flows against the others, so do all.
proof fn lemma_reversed_prefix(f: Seq<FieldModel>, k: int)
    requires
        0 <= k <= f.len(),
        fields_have_reversed(f.take(k)),
    ensures
        fields_have_reversed(f),
    decreases f.len() - k,
{
    if k < f.len() {
        assert(f.take(k + 1).subrange(0, k) =~= f.take(k));
        lemma_reversed_prefix(f, k + 1);
    } else {
        assert(f.take(k) =~= f);
    }
}

impl Type {
    /// A vector of bits.
    pub fn bitvec(width: usize) -> (t: Type)
        ensures
            t@ == TypeModel::BitVec(width as nat),
    {
        Type::BitVec { width }
    }

    /// A record of fields.
    pub fn record(name: &str, fields: Vec<Field>) -> (t: Type)
        ensures
            t@ == TypeModel::Record(RecordModel { identifier: name@, fields: field_models(fields@) }),
    {
        Type::Record(Record::new(name, fields))
    }

    /// Whether a field flows against the others, at any depth.
    pub fn has_reversed(&self) -> (b: bool)
        ensures
            b == type_has_reversed(self@),
        decreases self,
    {
        match self {
            Type::Record(r) => r.has_reversed(),
            _ => false,
        }
    }

    /// A copy of the type.
    pub fn duplicate(&self) -> (t: Type)
        ensures
            t@ == self@,
        decreases self,
    {
        match self {
            Type::Bit => Type::Bit,
            Type::BitVec { width } => Type::BitVec { width: *width },
            Type::Record(r) => Type::Record(r.duplicate()),
        }
    }

    /// Whether two types are the same.
    pub fn same(&self, other: &Type) -> (b: bool)
        ensures
            b == (self@ == other@),
        decreases self,
    {
        match self {
            Type::Bit => match other {
                Type::Bit => true,
                _ => false,
            },
            Type::BitVec { width: a } => match other {
                Type::BitVec { width: b } => *a == *b,
                _ => false,
            },
            Type::Record(a) => match other {
                Type::Record(b) => {
                    if !same_text(a.identifier.as_str(), b.identifier.as_str()) {
                        return false;
                    }
                    proof {
                        lemma_field_models(a.fields@);
                        lemma_field_models(b.fields@);
                    }
                    if a.fields.len() != b.fields.len() {
                        return false;
                    }
                    let ghost fa = field_models(a.fields@);
                    let ghost fb = field_models(b.fields@);
                    let mut i: usize = 0;
                    while i < a.fields.len()
                        invariant
                            i <= a.fields@.len() == b.fields@.len(),
                            fa == field_models(a.fields@),
                            fb == field_models(b.fields@),
                            fa.len() == a.fields@.len(),
                            fb.len() == b.fields@.len(),
                            forall|k: int| 0 <= k < a.fields@.len() ==> #[trigger] fa[k] == a.fields@[k]@,
                            forall|k: int| 0 <= k < b.fields@.len() ==> #[trigger] fb[k] == b.fields@[k]@,
                            forall|k: int| 0 <= k < i ==> fa[k] == fb[k],
                            *self == Type::Record(*a),
                            *other == Type::Record(*b),
                        decreases a.fields@.len() - i,
                    {
                        let fx = &a.fields[i];
                        let fy = &b.fields[i];
                        assert(decreases_to!(*self => (*self)->0));
                        assert(decreases_to!(*a => a.fields@[i as int].typ));
                        if !same_text(fx.name.as_str(), fy.name.as_str()) || fx.reversed != fy.reversed
                            || !fx.typ.same(&fy.typ) {
                            assert(fa[i as int] != fb[i as int]);
                            assert(self@ != other@);
                            return false;
                        }
                        i = i + 1;
                    }
                    assert(fa =~= fb);
                    true
                },
                _ => false,
            },
        }
    }

    /// The type flattened to its leaves, each with the names on its way
    /// from `prefix` on and whether it flows against the rest.
    pub fn flatten(&self, prefix: Vec<String>, reversed: bool) -> (r: Vec<(Vec<String>, Type, bool)>)
        ensures
            flats(r@) == flatten_model(self@, crate::text::texts(prefix@), reversed),
        decreases self,
    {
        match self {
            Type::Record(rec) => {
                let ghost fm = field_models(rec.fields@);
                proof { lemma_field_models(rec.fields@); }
                let mut result: Vec<(Vec<String>, Type, bool)> = Vec::new();
                assert(flats(result@) =~= flatten_fields(fm.take(0), crate::text::texts(prefix@)));
                let mut i: usize = 0;
                while i < rec.fields.len()
                    invariant
                        i <= rec.fields@.len(),
                        fm == field_models(rec.fields@),
                        fm.len() == rec.fields@.len(),
                        forall|k: int| 0 <= k < rec.fields@.len() ==> #[trigger] fm[k] == rec.fields@[k]@,
                        flats(result@) == flatten_fields(fm.take(i as int), crate::text::texts(prefix@)),
                        *self == Type::Record(*rec),
                    decreases rec.fields@.len() - i,
                {
                    proof { assert(fm.take(i + 1).subrange(0, i as int) =~= fm.take(i as int)); }
                    let field = &rec.fields[i];
                    let mut new_prefix = crate::text::copy_strings(&prefix);
                    let ghost p0 = new_prefix@;
                    new_prefix.push(field.name.clone());
                    assert(crate::text::texts(new_prefix@) =~= crate::text::texts(prefix@).push(fm[i as int].name));
                    assert(decreases_to!(*self => (*self)->0));
                    assert(decreases_to!(*rec => rec.fields@[i as int].typ));
                    let mut sub = field.typ.flatten(new_prefix, field.reversed);
                    let ghost before = result@;
                    let ghost added = sub@;
                    result.append(&mut sub);
                    assert(flats(result@) =~= flats(before) + flats(added));
                    i = i + 1;
                }
                assert(fm.take(rec.fields@.len() as int) =~= fm);
                result
            },
            _ => {
                let r = vec![(prefix, self.duplicate(), reversed)];
                assert(flats(r@) =~= seq![(crate::text::texts(prefix@), self@, reversed)]);
                r
            },
        }
    }
}

/// The shapes of flattened leaves.
pub open spec fn flats(v: Seq<(Vec<String>, Type, bool)>) -> Seq<Flat> {
    v.map_values(|x: (Vec<String>, Type, bool)| (crate::text::texts(x.0@), x.1@, x.2))
}

/// The modes of ports.
#[derive(Debug, Clone, Copy, PartialEq, Eq, Structural)]
pub enum Mode {
    /// Input.
    In,
    /// Output.
    Out,
}

/// The other mode.
pub open spec fn flip(m: Mode) -> Mode {
    match m {
        Mode::In => Mode::Out,
        Mode::Out => Mode::In,
    }
}

impl Mode {
    /// The other mode.
    pub fn reversed(self) -> (m: Mode)
        ensures
            m == flip(self),
    {
        match self {
            Mode::In => Mode::Out,
            Mode::Out => Mode::In,
        }
    }
}

/// A parameter of a component.
#[derive(Debug, PartialEq)]
pub struct Parameter {
    pub name: String,
    pub typ: Type,
}

/// A port of a component.
#[derive(Debug, PartialEq)]
pub struct Port {
    identifier: String,
    mode: Mode,
    typ: Type,
    doc: Option<String>,
}

/// The mathematical shape of a port.
pub struct PortModel {
    pub identifier: Seq<char>,
    pub mode: Mode,
    pub typ: TypeModel,
    pub doc: Option<Seq<char>>,
}

impl View for Port {
    type V = PortModel;

    closed spec fn view(&self) -> PortModel {
        PortModel { identifier: self.identifier@, mode: self.mode, typ: self.typ@, doc: opt_view(self.doc) }
    }
}

impl Port {
    /// A port without documentation.
    pub fn new(name: &str, mode: Mode, typ: Type) -> (p: Port)
        ensures
            p@ == (PortModel { identifier: name@, mode, typ: typ@, doc: None }),
    {
        Port { identifier: name.to_owned(), mode, typ, doc: None }
    }

    /// A port with documentation, if any.
    pub fn new_documented(name: &str, mode: Mode, typ: Type, doc: Option<String>) -> (p: Port)
        ensures
            p@ == (PortModel { identifier: name@, mode, typ: typ@, doc: opt_view(doc) }),
    {
        Port { identifier: name.to_owned(), mode, typ, doc }
    }

    /// The name of the port.
    pub fn identifier(&self) -> (s: &str)
        ensures
            s@ == self@.identifier,
    {
        self.identifier.as_str()
    }

    /// The mode of the port.
    pub fn mode(&self) -> (m: Mode)
        ensures
            m == self@.mode,
    {
        self.mode
    }

    /// The type of the port.
    pub fn typ(&self) -> (t: &Type)
        ensures
            t@ == self@.typ,
    {
        &self.typ
    }

    /// Whether the type of the port has a field that flows against the
    /// others.
    pub fn has_reversed(&self) -> (b: bool)
        ensures
            b == type_has_reversed(self@.typ),
    {
        self.typ.has_reversed()
    }

    /// This port with documentation.
    pub fn with_doc(self, doc: &str) -> (p: Port)
        ensures
            p@ == (PortModel { doc: Some(doc@), ..self@ }),
    {
        Port { doc: Some(doc.to_owned()), ..self }
    }

    /// Sets the documentation of the port.
    pub fn set_doc(&mut self, doc: &str)
        ensures
            final(self)@ == (PortModel { doc: Some(doc@), ..old(self)@ }),
    {
        self.doc = Some(doc.to_owned());
    }

    /// The documentation of the port.
    pub fn doc(&self) -> (d: Option<String>)
        ensures
            opt_view(d) == self@.doc,
    {
        match &self.doc {
            Some(d) => Some(d.clone()),
            None => None,
        }
    }
}

/// The shapes of ports.
pub open spec fn port_models(s: Seq<Port>) -> Seq<PortModel> {
    s.map_values(|p: Port| p@)
}

/// A component: parameters and ports.
#[derive(Debug, PartialEq)]
pub struct Component {
    identifier: String,
    parameters: Vec<Parameter>,
    ports: Vec<Port>,
    doc: Option<String>,
}

/// The mathematical shape of a component.
pub struct ComponentModel {
    pub identifier: Seq<char>,
    pub ports: Seq<PortModel>,
    pub doc: Option<Seq<char>>,
}

impl View for Component {
    type V = ComponentModel;

    closed spec fn view(&self) -> ComponentModel {
        ComponentModel { identifier: self.identifier@, ports: port_models(self.ports@), doc: opt_view(self.doc) }
    }
}

impl Component {
    /// A component.
    pub fn new(identifier: &str, parameters: Vec<Parameter>, ports: Vec<Port>, doc: Option<String>) -> (c: Component)
        ensures
            c@ == (ComponentModel { identifier: identifier@, ports: port_models(ports@), doc: opt_view(doc) }),
            c.parameters_of() == parameters@,
    {
        Component { identifier: identifier.to_owned(), parameters, ports, doc }
    }

    /// The parameters of the component.
    pub closed spec fn parameters_of(&self) -> Seq<Parameter> {
        self.parameters@
    }

    /// The name of the component.
    pub fn identifier(&self) -> (s: &str)
        ensures
            s@ == self@.identifier,
    {
        self.identifier.as_str()
    }

    /// The ports of the component.
    pub fn ports(&self) -> (v: &Vec<Port>)
        ensures
            port_models(v@) == self@.ports,
    {
        &self.ports
    }

    /// The parameters of the component.
    pub fn parameters(&self) -> (v: &Vec<Parameter>)
        ensures
            v@ == self.parameters_of(),
    {
        &self.parameters
    }

    /// This component with documentation.
    pub fn with_doc(self, doc: &str) -> (c: Component)
        ensures
            c@ == (ComponentModel { doc: Some(doc@), ..self@ }),
    {
        Component { doc: Some(doc.to_owned()), ..self }
    }

    /// Sets the documentation of the component.
    pub fn set_doc(&mut self, doc: &str)
        ensures
            final(self)@ == (ComponentModel { doc: Some(doc@), ..old(self)@ }),
    {
        self.doc = Some(doc.to_owned());
    }

    /// The documentation of the component.
    pub fn doc(&self) -> (d: Option<String>)
        ensures
            opt_view(d) == self@.doc,
    {
        match &self.doc {
            Some(d) => Some(d.clone()),
            None => None,
        }
    }
}

/// The ports that flattened ports become: one per leaf of each port's
/// type, named by its path joined with underscores, an output where the
/// leaf flows against the port's input direction.
pub open spec fn flat_ports(ps: Seq<PortModel>) -> Seq<PortModel>
    decreases ps.len(),
{
    if ps.len() == 0 {
        Seq::empty()
    } else {
        flat_ports(ps.drop_last()) + leaves_as_ports(
            flatten_model(ps.last().typ, seq![ps.last().identifier], ps.last().mode == Mode::Out),
        )
    }
}

/// Flattened leaves as ports.
pub open spec fn leaves_as_ports(f: Seq<Flat>) -> Seq<PortModel> {
    f.map_values(|x: Flat| PortModel {
        identifier: crate::text::join_underscore(x.0),
        mode: if x.2 { Mode::Out } else { Mode::In },
        typ: x.1,
        doc: None,
    })
}

impl Component {
    /// Replaces each port by the ports of the leaves of its type.
    pub fn flatten_types(&mut self)
        ensures
            final(self)@ == (ComponentModel { ports: flat_ports(old(self)@.ports), ..old(self)@ }),
            final(self).parameters_of() == old(self).parameters_of(),
    {
        let ghost pm = port_models(self.ports@);
        let mut new_ports: Vec<Port> = Vec::new();
        let mut i: usize = 0;
        assert(port_models(new_ports@) =~= flat_ports(pm.take(0)));
        while i < self.ports.len()
            invariant
                i <= self.ports@.len(),
                pm == port_models(self.ports@),
                port_models(new_ports@) == flat_ports(pm.take(i as int)),
            decreases self.ports@.len() - i,
        {
            let port = &self.ports[i];
            proof {
                assert(pm.take(i + 1).drop_last() =~= pm.take(i as int));
                assert(pm.take(i + 1).last() == port@);
            }
            let prefix = vec![port.identifier.clone()];
            assert(crate::text::texts(prefix@) =~= seq![port@.identifier]);
            let out = match port.mode {
                Mode::Out => true,
                Mode::In => false,
            };
            let bundle = port.typ.flatten(prefix, out);
            let ghost leaves = leaves_as_ports(flats(bundle@));
            let ghost start = port_models(new_ports@);
            let mut j: usize = 0;
            while j < bundle.len()
                invariant
                    j <= bundle@.len(),
                    leaves == leaves_as_ports(flats(bundle@)),
                    port_models(new_ports@) == start + leaves.take(j as int),
                decreases bundle@.len() - j,
            {
                let name = crate::text::join_with_underscore(&bundle[j].0);
                let mode = if bundle[j].2 { Mode::Out } else { Mode::In };
                let p = Port::new(name.as_str(), mode, bundle[j].1.duplicate());
                let ghost before = new_ports@;
                new_ports.push(p);
                assert(port_models(new_ports@) =~= port_models(before).push(p@));
                assert(leaves.take(j + 1) =~= leaves.take(j as int).push(leaves[j as int]));
                j = j + 1;
            }
            assert(leaves.take(bundle@.len() as int) =~= leaves);
            i = i + 1;
        }
        assert(pm.take(self.ports@.len() as int) =~= pm);
        self.ports = new_ports;
    }
}

/// Items with a name.
pub trait Identify {
    /// The name of the item.
    fn identifier(&self) -> &str;
}

impl Identify for Field {
    fn identifier(&self) -> (s: &str)
        ensures
            s@ == self@.name,
    {
        self.name.as_str()
    }
}

impl Identify for Record {
    fn identifier(&self) -> (s: &str)
        ensures
            s@ == self@.identifier,
    {
        self.identifier.as_str()
    }
}

impl Identify for Port {
    fn identifier(&self) -> (s: &str)
        ensures
            s@ == self@.identifier,
    {
        self.identifier.as_str()
    }
}

impl Identify for Component {
    fn identifier(&self) -> (s: &str)
        ensures
            s@ == self@.identifier,
    {
        self.identifier.as_str()
    }
}

/// A package of components.
#[derive(Debug, PartialEq)]
pub struct Package {
    pub identifier: String,
    pub components: Vec<Component>,
}

/// The shapes of components.
pub open spec fn component_models(s: Seq<Component>) -> Seq<ComponentModel> {
    s.map_values(|c: Component| c@)
}

} // verus!
