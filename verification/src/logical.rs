//! Logical streams: the type tree of a Tydi logical stream and the options
//! of its stream nodes.

use vstd::prelude::*;
use crate::decimal::{real_eq, same_number};
use crate::error::{Error, Result};
use vstd::std_specs::cmp::PartialEqSpecImpl;
use crate::name::Name;
use crate::phys::{complexity_lower, Complexity};
use crate::scan::{float_end, is_positive_float};
use crate::text::chars_of;
use crate::util::{is_log2_ceil, lemma_log2_ceil_exists, lemma_log2c, log2_ceil, log2c, pow2};

verus! {

/// Direction of a stream.
#[derive(Debug, Clone, Copy, PartialEq, Eq, Structural)]
pub enum Direction {
    /// The child stream flows in the same direction as its parent.
    Forward,
    /// The child stream acts as a response channel for its parent.
    Reverse,
}

/// The other direction.
pub open spec fn flip_direction(d: Direction) -> Direction {
    match d {
        Direction::Forward => Direction::Reverse,
        Direction::Reverse => Direction::Forward,
    }
}

impl Direction {
    /// Reverses this direction.
    pub fn reverse(&mut self)
        ensures
            *final(self) == flip_direction(*old(self)),
    {
        *self = match self {
            Direction::Forward => Direction::Reverse,
            Direction::Reverse => Direction::Forward,
        };
    }

    /// This direction, reversed.
    pub fn reversed(self) -> (d: Direction)
        ensures
            d == flip_direction(self),
    {
        let mut d = self;
        d.reverse();
        d
    }
}

impl Default for Direction {
    fn default() -> (d: Direction)
        ensures
            d == Direction::Forward,
    {
        Direction::Forward
    }
}

/// Reversing a direction twice gives it back.
pub proof fn lemma_direction_reverse_twice(d: Direction)
    ensures
        flip_direction(flip_direction(d)) == d,
        flip_direction(d) != d,
{
}

/// The synchronicity of the elements of a child stream with respect to the
/// elements of its parent.
#[derive(Debug, Clone, Copy, PartialEq, Eq, Structural)]
pub enum Synchronicity {
    /// One-to-one, with the parent's dimensionality carried along.
    Sync,
    /// One-to-one, with the parent's dimensionality left out.
    Flatten,
    /// The relation depends on context.
    Desync,
    /// As desync, with the parent's dimensionality left out.
    FlatDesync,
}

impl Default for Synchronicity {
    fn default() -> (s: Synchronicity)
        ensures
            s == Synchronicity::Sync,
    {
        Synchronicity::Sync
    }
}

/// A positive real number, kept as the decimal literal that denotes it.
/// Two of them are equal when their literals denote the same number.
#[derive(Debug, Clone)]
pub struct PositiveReal {
    literal: String,
}

impl View for PositiveReal {
    type V = Seq<char>;

    closed spec fn view(&self) -> Seq<char> {
        self.literal@
    }
}

/// Whether a text is a decimal literal of a positive number.
pub open spec fn is_positive_literal(t: Seq<char>) -> bool {
    float_end(t, 0) == Some(t.len() as int) && is_positive_float(t)
}

impl PositiveReal {
    /// The number a literal denotes; fails unless the literal is a whole
    /// decimal literal of a positive number.
    pub fn try_new(literal: &str) -> (r: Result<PositiveReal>)
        ensures
            is_positive_literal(literal@) ==> (r matches Ok(p) && p@ == literal@),
            !is_positive_literal(literal@) ==> (r matches Err(Error::InvalidArgument(m))
                && m@ == "number must be positive"@),
    {
        let cs = chars_of(literal);
        if crate::scan::literal_is_positive(&cs) {
            Ok(PositiveReal { literal: literal.to_owned() })
        } else {
            Err(Error::InvalidArgument(String::from_str("number must be positive")))
        }
    }

    /// A copy of this number.
    pub fn duplicate(&self) -> (p: PositiveReal)
        ensures
            p@ == self@,
    {
        PositiveReal { literal: self.literal.clone() }
    }

    /// The number one.
    pub fn one() -> (p: PositiveReal)
        ensures
            p@ == "1"@,
    {
        PositiveReal { literal: String::from_str("1") }
    }

    /// Whether two numbers are the same, by the numbers their literals
    /// denote.
    pub fn same(&self, other: &PositiveReal) -> (b: bool)
        ensures
            b == real_eq(self@, other@),
    {
        same_number(self.literal.as_str(), other.literal.as_str())
    }

    /// The literal of this number.
    pub fn literal(&self) -> (s: &str)
        ensures
            s@ == self@,
    {
        self.literal.as_str()
    }
}

impl PartialEq for PositiveReal {
    fn eq(&self, other: &PositiveReal) -> (b: bool) {
        self.same(other)
    }
}

impl PartialEqSpecImpl for PositiveReal {
    open spec fn obeys_eq_spec() -> bool {
        true
    }

    open spec fn eq_spec(&self, other: &PositiveReal) -> bool {
        real_eq(self@, other@)
    }
}

/// A stream node of a logical stream type.
#[derive(Debug, PartialEq)]
pub struct Stream {
    /// The type of the data carried by the stream.
    pub data: Box<LogicalStreamType>,
    /// The number of elements per transfer, on average.
    pub throughput: PositiveReal,
    /// The dimensionality of the child stream with respect to its parent.
    pub dimensionality: usize,
    /// The synchronicity with respect to the parent stream.
    pub synchronicity: Synchronicity,
    /// The complexity of the physical stream interface.
    pub complexity: Complexity,
    /// The direction of the stream.
    pub direction: Direction,
    /// The user data carried by the stream, if any.
    pub user: Option<Box<LogicalStreamType>>,
    /// Whether the stream is kept where it carries no data.
    pub keep: bool,
}

/// A logical stream type.
#[derive(Debug, PartialEq)]
pub enum LogicalStreamType {
    /// No data.
    Null,
    /// A positive number of bits.
    Bits(usize),
    /// All named fields at once.
    Group(Vec<(Name, LogicalStreamType)>),
    /// One of the named fields at a time.
    Union(Vec<(Name, LogicalStreamType)>),
    /// A new stream.
    Stream(Stream),
}

/// The mathematical shape of a logical stream type.
pub enum LogicalModel {
    Null,
    Bits(nat),
    Group(Seq<(Seq<char>, LogicalModel)>),
    Union(Seq<(Seq<char>, LogicalModel)>),
    Stream(Box<LogicalStreamModel>),
}

/// The mathematical shape of a stream node.
pub struct LogicalStreamModel {
    pub data: LogicalModel,
    pub throughput: Seq<char>,
    pub dimensionality: nat,
    pub synchronicity: Synchronicity,
    pub complexity: Seq<usize>,
    pub direction: Direction,
    pub user: Option<LogicalModel>,
    pub keep: bool,
}

/// The shape of a logical stream type.
pub open spec fn lst_model(t: LogicalStreamType) -> LogicalModel
    decreases t,
{
    match t {
        LogicalStreamType::Null => LogicalModel::Null,
        LogicalStreamType::Bits(b) => LogicalModel::Bits(b as nat),
        LogicalStreamType::Group(f) => LogicalModel::Group(fields_model(f@)),
        LogicalStreamType::Union(f) => LogicalModel::Union(fields_model(f@)),
        LogicalStreamType::Stream(s) => LogicalModel::Stream(Box::new(stream_model_of(s))),
    }
}

/// The shapes of named fields.
pub open spec fn fields_model(f: Seq<(Name, LogicalStreamType)>) -> Seq<(Seq<char>, LogicalModel)>
    decreases f,
{
    if f.len() == 0 {
        Seq::empty()
    } else {
        fields_model(f.subrange(0, f.len() - 1)).push((f.last().0@, lst_model(f.last().1)))
    }
}

/// The shape of a stream node.
pub open spec fn stream_model_of(s: Stream) -> LogicalStreamModel
    decreases s,
{
    LogicalStreamModel {
        data: lst_model(*s.data),
        throughput: s.throughput@,
        dimensionality: s.dimensionality as nat,
        synchronicity: s.synchronicity,
        complexity: s.complexity@,
        direction: s.direction,
        user: match s.user {
            Some(u) => Some(lst_model(*u)),
            None => None,
        },
        keep: s.keep,
    }
}

impl View for LogicalStreamType {
    type V = LogicalModel;

    open spec fn view(&self) -> LogicalModel {
        lst_model(*self)
    }
}

/// Whether two of the fields share a name.
pub open spec fn has_duplicate_name(f: Seq<(Seq<char>, LogicalModel)>) -> bool {
    exists|i: int, j: int| 0 <= i < j < f.len() && #[trigger] f[i].0 == #[trigger] f[j].0
}

/// The fields of one more field.
pub proof fn lemma_fields_model_push(f: Seq<(Name, LogicalStreamType)>, x: (Name, LogicalStreamType))
    ensures
        fields_model(f.push(x)) == fields_model(f).push((x.0@, lst_model(x.1))),
        fields_model(f).len() == f.len(),
    decreases f.len(),
{
    assert(f.push(x).subrange(0, f.len() as int) =~= f);
    lemma_fields_model_len(f);
}

/// There are as many field shapes as fields.
pub proof fn lemma_fields_model_len(f: Seq<(Name, LogicalStreamType)>)
    ensures
        fields_model(f).len() == f.len(),
    decreases f.len(),
{
    if f.len() > 0 {
        lemma_fields_model_len(f.subrange(0, f.len() - 1));
    }
}

/// The shape of each field is the shape of its name and type.
pub proof fn lemma_fields_model_index(f: Seq<(Name, LogicalStreamType)>, i: int)
    requires
        0 <= i < f.len(),
    ensures
        fields_model(f)[i] == (f[i].0@, lst_model(f[i].1)),
    decreases f.len(),
{
    lemma_fields_model_len(f);
    if i < f.len() - 1 {
        lemma_fields_model_index(f.subrange(0, f.len() - 1), i);
    }
}

/// Checks that the names of fields do not repeat.
#[verifier::loop_isolation(false)]
fn unique_names(fields: &Vec<(Name, LogicalStreamType)>) -> (b: bool)
    ensures
        b == !has_duplicate_name(fields_model(fields@)),
{
    let ghost m = fields_model(fields@);
    proof {
        lemma_fields_model_len(fields@);
        assert forall|k: int| 0 <= k < fields@.len() implies #[trigger] m[k] == (fields@[k].0@, lst_model(fields@[k].1)) by {
            lemma_fields_model_index(fields@, k);
        }
    }
    let mut j: usize = 0;
    while j < fields.len()
        invariant
            j <= fields@.len(),
            m == fields_model(fields@),
            m.len() == fields@.len(),
            forall|k: int| 0 <= k < fields@.len() ==> #[trigger] m[k] == (fields@[k].0@, lst_model(fields@[k].1)),
            forall|a: int, b: int| 0 <= a < b < j ==> m[a].0 != m[b].0,
        decreases fields@.len() - j,
    {
        let mut i: usize = 0;
        while i < j
            invariant
                i <= j < fields@.len(),
                m == fields_model(fields@),
                m.len() == fields@.len(),
                forall|k: int| 0 <= k < fields@.len() ==> #[trigger] m[k] == (fields@[k].0@, lst_model(fields@[k].1)),
                forall|a: int, b: int| 0 <= a < b < j ==> m[a].0 != m[b].0,
                forall|a: int| 0 <= a < i ==> m[a].0 != m[j as int].0,
            decreases j - i,
        {
            if fields[i].0.same(&fields[j].0) {
                assert(m[i as int].0 == m[j as int].0);
                assert(has_duplicate_name(m));
                return false;
            }
            i = i + 1;
        }
        j = j + 1;
    }
    true
}

/// The position of the first field with a name, if there is one.
pub open spec fn name_index(s: Seq<(Seq<char>, LogicalModel)>, k: Seq<char>) -> Option<int>
    decreases s.len(),
{
    if s.len() == 0 {
        None
    } else {
        match name_index(s.drop_last(), k) {
            Some(i) => Some(i),
            None => if s.last().0 == k { Some(s.len() - 1) } else { None },
        }
    }
}

/// A field put in among others: in place of the one with the same name, or
/// last.
pub open spec fn put_field(s: Seq<(Seq<char>, LogicalModel)>, e: (Seq<char>, LogicalModel)) -> Seq<(Seq<char>, LogicalModel)> {
    match name_index(s, e.0) {
        Some(i) => s.update(i, e),
        None => s.push(e),
    }
}

/// Fields collected one after the other: a field whose name came before
/// takes the place of the earlier one.
pub open spec fn collected(f: Seq<(Seq<char>, LogicalModel)>) -> Seq<(Seq<char>, LogicalModel)>
    decreases f.len(),
{
    if f.len() == 0 {
        Seq::empty()
    } else {
        put_field(collected(f.drop_last()), f.last())
    }
}

proof fn lemma_name_index(s: Seq<(Seq<char>, LogicalModel)>, k: Seq<char>)
    ensures
        match name_index(s, k) {
            Some(i) => 0 <= i < s.len() && s[i].0 == k && forall|j: int| 0 <= j < i ==> (#[trigger] s[j]).0 != k,
            None => forall|j: int| 0 <= j < s.len() ==> (#[trigger] s[j]).0 != k,
        },
    decreases s.len(),
{
    if s.len() > 0 {
        lemma_name_index(s.drop_last(), k);
        assert forall|j: int| 0 <= j < s.len() - 1 implies #[trigger] s[j] == s.drop_last()[j] by {}
    }
}

proof fn lemma_fields_model_update(f: Seq<(Name, LogicalStreamType)>, i: int, x: (Name, LogicalStreamType))
    requires
        0 <= i < f.len(),
    ensures
        fields_model(f.update(i, x)) == fields_model(f).update(i, (x.0@, lst_model(x.1))),
{
    lemma_fields_model_len(f);
    lemma_fields_model_len(f.update(i, x));
    assert forall|k: int| 0 <= k < f.len() implies #[trigger] fields_model(f.update(i, x))[k]
        == fields_model(f).update(i, (x.0@, lst_model(x.1)))[k] by {
        lemma_fields_model_index(f.update(i, x), k);
        lemma_fields_model_index(f, k);
    }
    assert(fields_model(f.update(i, x)) =~= fields_model(f).update(i, (x.0@, lst_model(x.1))));
}

/// Puts a field in among others: in place of the one with the same name,
/// or last.
fn put_named(v: &mut Vec<(Name, LogicalStreamType)>, e: (Name, LogicalStreamType))
    ensures
        fields_model(final(v)@) == put_field(fields_model(old(v)@), (e.0@, lst_model(e.1))),
{
    let ghost s = fields_model(v@);
    let ghost k = e.0@;
    proof { lemma_fields_model_len(v@); }
    let mut j: usize = 0;
    while j < v.len()
        invariant
            j <= v@.len(),
            s == fields_model(v@),
            s.len() == v@.len(),
            v@ == old(v)@,
            k == e.0@,
            forall|m: int| 0 <= m < j ==> (#[trigger] s[m]).0 != k,
        decreases v@.len() - j,
    {
        proof { lemma_fields_model_index(v@, j as int); }
        if v[j].0.same(&e.0) {
            proof {
                lemma_name_index(s, k);
                lemma_fields_model_update(v@, j as int, e);
            }
            v[j] = e;
            return;
        }
        j = j + 1;
    }
    proof {
        lemma_name_index(s, k);
        lemma_fields_model_push(v@, e);
    }
    v.push(e);
}

/// Collects fields one after the other.
fn collect_fields(fields: Vec<(Name, LogicalStreamType)>) -> (r: Vec<(Name, LogicalStreamType)>)
    ensures
        fields_model(r@) == collected(fields_model(fields@)),
{
    proof { lemma_fields_model_len(fields@); }
    let ghost fm = fields_model(fields@);
    let mut out: Vec<(Name, LogicalStreamType)> = Vec::new();
    let mut rest = fields;
    let ghost mut k: int = 0;
    assert(fields_model(out@) =~= collected(fm.take(0)));
    while rest.len() > 0
        invariant
            0 <= k <= fm.len(),
            fm.len() == rest@.len() + k,
            forall|m: int| 0 <= m < rest@.len() ==> (#[trigger] fields_model(rest@)[m]) == fm[k + m],
            fields_model(out@) == collected(fm.take(k)),
        decreases rest@.len(),
    {
        let ghost before = rest@;
        proof {
            lemma_fields_model_len(before);
            lemma_fields_model_index(before, 0);
        }
        let e = rest.remove(0);
        proof {
            assert(rest@ =~= before.skip(1));
            lemma_fields_model_len(rest@);
            assert forall|m: int| 0 <= m < rest@.len() implies (#[trigger] fields_model(rest@)[m]) == fm[k + 1 + m] by {
                lemma_fields_model_index(rest@, m);
                lemma_fields_model_index(before, m + 1);
            }
            assert(fields_model(before)[0] == fm[k]);
            assert(fm.take(k + 1).drop_last() =~= fm.take(k));
        }
        put_named(&mut out, e);
        proof { k = k + 1; }
    }
    assert(fm.take(k) =~= fm);
    out
}

impl LogicalStreamType {
    /// The null type.
    pub fn new_null() -> (t: LogicalStreamType)
        ensures
            t@ == LogicalModel::Null,
    {
        LogicalStreamType::Null
    }

    /// A number of bits; fails for zero bits.
    pub fn try_new_bits(count: usize) -> (r: Result<LogicalStreamType>)
        ensures
            count > 0 ==> (r matches Ok(t) && t@ == LogicalModel::Bits(count as nat)),
            count == 0 ==> (r matches Err(Error::InvalidArgument(m))
                && m@ == "bit count cannot be zero"@),
    {
        if count == 0 {
            Err(Error::InvalidArgument(String::from_str("bit count cannot be zero")))
        } else {
            Ok(LogicalStreamType::Bits(count))
        }
    }

    /// A positive number of bits.
    pub fn new_bits(count: usize) -> (t: LogicalStreamType)
        requires
            count > 0,
        ensures
            t@ == LogicalModel::Bits(count as nat),
    {
        LogicalStreamType::Bits(count)
    }

    /// A group of the fields collected one after the other: a field whose
    /// name came before takes the place of the earlier one.
    pub fn new_group(fields: Vec<(Name, LogicalStreamType)>) -> (t: LogicalStreamType)
        ensures
            t@ == LogicalModel::Group(collected(fields_model(fields@))),
    {
        LogicalStreamType::Group(collect_fields(fields))
    }

    /// A union of the fields collected one after the other: a field whose
    /// name came before takes the place of the earlier one.
    pub fn new_union(fields: Vec<(Name, LogicalStreamType)>) -> (t: LogicalStreamType)
        ensures
            t@ == LogicalModel::Union(collected(fields_model(fields@))),
    {
        LogicalStreamType::Union(collect_fields(fields))
    }

    /// A group of named fields; fails when a name repeats.
    pub fn try_new_group(fields: Vec<(Name, LogicalStreamType)>) -> (r: Result<LogicalStreamType>)
        ensures
            !has_duplicate_name(fields_model(fields@)) ==> (r matches Ok(t)
                && t@ == LogicalModel::Group(fields_model(fields@))),
            has_duplicate_name(fields_model(fields@)) ==> (r matches Err(Error::UnexpectedDuplicate)),
    {
        if unique_names(&fields) {
            Ok(LogicalStreamType::Group(fields))
        } else {
            Err(Error::UnexpectedDuplicate)
        }
    }

    /// A union of named fields; fails when a name repeats.
    pub fn try_new_union(fields: Vec<(Name, LogicalStreamType)>) -> (r: Result<LogicalStreamType>)
        ensures
            !has_duplicate_name(fields_model(fields@)) ==> (r matches Ok(t)
                && t@ == LogicalModel::Union(fields_model(fields@))),
            has_duplicate_name(fields_model(fields@)) ==> (r matches Err(Error::UnexpectedDuplicate)),
    {
        if unique_names(&fields) {
            Ok(LogicalStreamType::Union(fields))
        } else {
            Err(Error::UnexpectedDuplicate)
        }
    }

    /// A stream node.
    pub fn new_stream(inner: Stream) -> (t: LogicalStreamType)
        ensures
            t@ == LogicalModel::Stream(Box::new(stream_model_of(inner))),
    {
        LogicalStreamType::Stream(inner)
    }

    /// Whether this type holds only element-manipulating nodes: no stream
    /// node below a group or union, and a stream node's data likewise.
    pub fn is_element_only(&self) -> (b: bool)
        ensures
            b == model_is_element_only(self@),
        decreases self,
    {
        match self {
            LogicalStreamType::Null => {
                assert(lst_model(LogicalStreamType::Null) == LogicalModel::Null);
                assert(self@ == LogicalModel::Null);
                true
            },
            LogicalStreamType::Bits(_) => true,
            LogicalStreamType::Group(f) => {
                assert(self@ == LogicalModel::Group(fields_model(f@)));
                fields_element_only(f)
            },
            LogicalStreamType::Union(f) => {
                assert(self@ == LogicalModel::Union(fields_model(f@)));
                fields_element_only(f)
            },
            LogicalStreamType::Stream(s) => {
                assert(self@ == LogicalModel::Stream(Box::new(stream_model_of(*s))));
                s.data.is_element_only()
            },
        }
    }

    /// Whether this type gives rise to no signal at all.
    pub fn is_null(&self) -> (b: bool)
        ensures
            b == model_is_null(self@),
        decreases self,
    {
        match self {
            LogicalStreamType::Null => true,
            LogicalStreamType::Bits(_) => false,
            LogicalStreamType::Group(f) => {
                assert(self@ == LogicalModel::Group(fields_model(f@)));
                fields_null(f)
            },
            LogicalStreamType::Union(f) => {
                assert(self@ == LogicalModel::Union(fields_model(f@)));
                proof { lemma_fields_model_len(f@); }
                f.len() == 1 && fields_null(f)
            },
            LogicalStreamType::Stream(s) => {
                assert(self@ == LogicalModel::Stream(Box::new(stream_model_of(*s))));
                s.is_null()
            },
        }
    }
}

/// Whether a type holds only element-manipulating nodes.
pub open spec fn model_is_element_only(m: LogicalModel) -> bool
    decreases m,
{
    match m {
        LogicalModel::Null => true,
        LogicalModel::Bits(_) => true,
        LogicalModel::Group(f) => all_element_only(f),
        LogicalModel::Union(f) => all_element_only(f),
        LogicalModel::Stream(s) => model_is_element_only(s.data),
    }
}

/// Whether all fields hold only element-manipulating nodes.
pub open spec fn all_element_only(f: Seq<(Seq<char>, LogicalModel)>) -> bool
    decreases f,
{
    if f.len() == 0 {
        true
    } else {
        all_element_only(f.subrange(0, f.len() - 1)) && model_is_element_only(f.last().1)
    }
}

/// Whether a type gives rise to no signal: null, a group of null fields, a
/// union of one null field, or a stream node whose data is null, whose user
/// data is absent or null, and that is not kept.
pub open spec fn model_is_null(m: LogicalModel) -> bool
    decreases m,
{
    match m {
        LogicalModel::Null => true,
        LogicalModel::Bits(_) => false,
        LogicalModel::Group(f) => all_null(f),
        LogicalModel::Union(f) => f.len() == 1 && all_null(f),
        LogicalModel::Stream(s) => model_is_null(s.data)
            && (match s.user {
                Some(u) => model_is_null(u),
                None => true,
            })
            && !s.keep,
    }
}

/// Whether all fields give rise to no signal.
pub open spec fn all_null(f: Seq<(Seq<char>, LogicalModel)>) -> bool
    decreases f,
{
    if f.len() == 0 {
        true
    } else {
        all_null(f.subrange(0, f.len() - 1)) && model_is_null(f.last().1)
    }
}

#[verifier::loop_isolation(false)]
fn fields_element_only(f: &Vec<(Name, LogicalStreamType)>) -> (b: bool)
    ensures
        b == all_element_only(fields_model(f@)),
    decreases f,
{
    proof { lemma_fields_model_len(f@); }
    let ghost fm = fields_model(f@);
    let mut i: usize = 0;
    while i < f.len()
        invariant
            i <= f@.len(),
            fm.len() == f@.len(),
            all_element_only(fm.take(i as int)),
        decreases f@.len() - i,
    {
        proof {
            lemma_fields_model_index(f@, i as int);
            assert(fm.take(i + 1).subrange(0, i as int) =~= fm.take(i as int));
        }
        assert(decreases_to!(f => f@[i as int].1));
        if !f[i].1.is_element_only() {
            proof { lemma_all_prefix_element_only(fm, i + 1); }
            return false;
        }
        i = i + 1;
    }
    assert(fm.take(f@.len() as int) =~= fm);
    true
}

#[verifier::loop_isolation(false)]
fn fields_null(f: &Vec<(Name, LogicalStreamType)>) -> (b: bool)
    ensures
        b == all_null(fields_model(f@)),
    decreases f,
{
    proof { lemma_fields_model_len(f@); }
    let ghost fm = fields_model(f@);
    let mut i: usize = 0;
    while i < f.len()
        invariant
            i <= f@.len(),
            fm.len() == f@.len(),
            all_null(fm.take(i as int)),
        decreases f@.len() - i,
    {
        proof {
            lemma_fields_model_index(f@, i as int);
            assert(fm.take(i + 1).subrange(0, i as int) =~= fm.take(i as int));
        }
        assert(decreases_to!(f => f@[i as int].1));
        if !f[i].1.is_null() {
            proof { lemma_all_prefix_null(fm, i + 1); }
            return false;
        }
        i = i + 1;
    }
    assert(fm.take(f@.len() as int) =~= fm);
    true
}

/// Where a prefix fails, so do all fields.
proof fn lemma_all_prefix_element_only(f: Seq<(Seq<char>, LogicalModel)>, k: int)
    requires
        0 <= k <= f.len(),
        !all_element_only(f.take(k)),
    ensures
        !all_element_only(f),
    decreases f.len() - k,
{
    if k < f.len() {
        assert(f.take(k + 1).subrange(0, k) =~= f.take(k));
        lemma_all_prefix_element_only(f, k + 1);
    } else {
        assert(f.take(k) =~= f);
    }
}

/// Where a prefix fails, so do all fields.
proof fn lemma_all_prefix_null(f: Seq<(Seq<char>, LogicalModel)>, k: int)
    requires
        0 <= k <= f.len(),
        !all_null(f.take(k)),
    ensures
        !all_null(f),
    decreases f.len() - k,
{
    if k < f.len() {
        assert(f.take(k + 1).subrange(0, k) =~= f.take(k));
        lemma_all_prefix_null(f, k + 1);
    } else {
        assert(f.take(k) =~= f);
    }
}

impl Stream {
    /// A stream node with the given options.
    pub fn new(
        data: LogicalStreamType,
        throughput: PositiveReal,
        dimensionality: usize,
        synchronicity: Synchronicity,
        complexity: Complexity,
        direction: Direction,
        user: Option<Box<LogicalStreamType>>,
        keep: bool,
    ) -> (s: Stream)
        ensures
            stream_model_of(s) == (LogicalStreamModel {
                data: data@,
                throughput: throughput@,
                dimensionality: dimensionality as nat,
                synchronicity,
                complexity: complexity@,
                direction,
                user: match user {
                    Some(u) => Some(lst_model(*u)),
                    None => None,
                },
                keep,
            }),
    {
        Stream { data: Box::new(data), throughput, dimensionality, synchronicity, complexity, direction, user, keep }
    }

    /// The direction of the stream.
    pub fn direction(&self) -> (d: Direction)
        ensures
            d == self.direction,
    {
        self.direction
    }

    /// The synchronicity of the stream.
    pub fn synchronicity(&self) -> (s: Synchronicity)
        ensures
            s == self.synchronicity,
    {
        self.synchronicity
    }

    /// The dimensionality of the stream.
    pub fn dimensionality(&self) -> (d: usize)
        ensures
            d == self.dimensionality,
    {
        self.dimensionality
    }

    /// The throughput of the stream.
    pub fn throughput(&self) -> (t: &PositiveReal)
        ensures
            t@ == self.throughput@,
    {
        &self.throughput
    }

    /// Reverses the direction of the stream.
    pub fn reverse(&mut self)
        ensures
            final(self).direction == flip_direction(old(self).direction),
            final(self).data == old(self).data,
            final(self).user == old(self).user,
            final(self).dimensionality == old(self).dimensionality,
            final(self).synchronicity == old(self).synchronicity,
            final(self).keep == old(self).keep,
    {
        self.direction.reverse();
    }

    /// Whether the stream gives rise to no signal: its data is null, its
    /// user data is absent or null, and it is not kept.
    pub fn is_null(&self) -> (b: bool)
        ensures
            b == model_is_null(LogicalModel::Stream(Box::new(stream_model_of(*self)))),
        decreases self,
    {
        let d = self.data.is_null();
        let u = match &self.user {
            Some(u) => u.is_null(),
            None => true,
        };
        d && u && !self.keep
    }
}

// ---------------------------------------------------------------------
// The signal fields of a type.

/// A field of the signals of a type: its path of names and its bit count.
pub type FieldModel = (Seq<Seq<char>>, nat);

/// The fields with a name appended to each path.
pub open spec fn lifted(fs: Seq<FieldModel>, name: Seq<char>) -> Seq<FieldModel> {
    fs.map_values(|f: FieldModel| (f.0.push(name), f.1))
}

/// The largest bit count of the fields, 0 for none.
pub open spec fn max_bits(fs: Seq<FieldModel>) -> nat
    decreases fs.len(),
{
    if fs.len() == 0 {
        0
    } else {
        let m = max_bits(fs.drop_last());
        if fs.last().1 > m { fs.last().1 } else { m }
    }
}

/// The signal fields of a type: none for null and stream nodes; one field
/// with an empty path for bits; the fields of each member of a group with
/// the member's name appended to their paths; for a union, a `tag` field
/// of the bits needed to tell its members apart when there is more than
/// one, and a `union` field as wide as the widest field of any member when
/// that is not zero.
pub open spec fn model_fields(m: LogicalModel) -> Seq<FieldModel>
    decreases m,
{
    match m {
        LogicalModel::Null => Seq::empty(),
        LogicalModel::Bits(b) => seq![(Seq::empty(), b)],
        LogicalModel::Group(f) => group_fields(f),
        LogicalModel::Union(f) => {
            let tag = if f.len() > 1 { seq![(seq!["tag"@], log2c(f.len()))] } else { Seq::empty() };
            let b = members_max_bits(f);
            tag + if b > 0 { seq![(seq!["union"@], b)] } else { Seq::empty() }
        },
        LogicalModel::Stream(_) => Seq::empty(),
    }
}

/// The fields of the members of a group, in order, each path extended
/// with the member's name.
pub open spec fn group_fields(f: Seq<(Seq<char>, LogicalModel)>) -> Seq<FieldModel>
    decreases f,
{
    if f.len() == 0 {
        Seq::empty()
    } else {
        group_fields(f.subrange(0, f.len() - 1)) + lifted(model_fields(f.last().1), f.last().0)
    }
}

/// The largest field of any member.
pub open spec fn members_max_bits(f: Seq<(Seq<char>, LogicalModel)>) -> nat
    decreases f,
{
    if f.len() == 0 {
        0
    } else {
        let m = members_max_bits(f.subrange(0, f.len() - 1));
        let b = max_bits(model_fields(f.last().1));
        if b > m { b } else { m }
    }
}

/// Whether the members of every group and union, all the way down through
/// groups and unions, have distinct names.
pub open spec fn names_unique(m: LogicalModel) -> bool
    decreases m,
{
    match m {
        LogicalModel::Group(f) => !has_duplicate_name(f) && members_names_unique(f),
        LogicalModel::Union(f) => !has_duplicate_name(f) && members_names_unique(f),
        _ => true,
    }
}

/// Whether every member has distinct names all the way down.
pub open spec fn members_names_unique(f: Seq<(Seq<char>, LogicalModel)>) -> bool
    decreases f,
{
    if f.len() == 0 {
        true
    } else {
        members_names_unique(f.subrange(0, f.len() - 1)) && names_unique(f.last().1)
    }
}

/// The paths of fields, by their texts.
pub open spec fn path_model(p: Seq<Name>) -> Seq<Seq<char>> {
    p.map_values(|n: Name| n@)
}

/// The shapes of fields.
pub open spec fn fields_of(v: Seq<(Vec<Name>, usize)>) -> Seq<FieldModel> {
    v.map_values(|f: (Vec<Name>, usize)| (path_model(f.0@), f.1 as nat))
}

fn copy_path(p: &Vec<Name>) -> (r: Vec<Name>)
    ensures
        path_model(r@) == path_model(p@),
{
    let mut r: Vec<Name> = Vec::new();
    let mut i: usize = 0;
    while i < p.len()
        invariant
            i <= p@.len(),
            path_model(r@) == path_model(p@.take(i as int)),
        decreases p@.len() - i,
    {
        let ghost before = r@;
        r.push(p[i].duplicate());
        assert(path_model(r@) =~= path_model(before).push(p@[i as int]@));
        assert(path_model(p@.take(i + 1)) =~= path_model(p@.take(i as int)).push(p@[i as int]@));
        i = i + 1;
    }
    assert(p@.take(p@.len() as int) =~= p@);
    r
}

proof fn lemma_members_prefix_unique(f: Seq<(Seq<char>, LogicalModel)>, i: int)
    requires
        0 <= i < f.len(),
        members_names_unique(f),
    ensures
        names_unique(f[i].1),
    decreases f.len(),
{
    if i < f.len() - 1 {
        lemma_members_prefix_unique(f.subrange(0, f.len() - 1), i);
    }
}

proof fn lemma_max_bits_push(fs: Seq<FieldModel>, x: FieldModel)
    ensures
        max_bits(fs.push(x)) == (if x.1 > max_bits(fs) { x.1 } else { max_bits(fs) }),
{
    assert(fs.push(x).drop_last() =~= fs);
}

impl LogicalStreamType {
    /// The signal fields of this type, in order: their paths of names and
    /// their bit counts.
    #[verifier::loop_isolation(false)]
    pub fn fields(&self) -> (r: Vec<(Vec<Name>, usize)>)
        requires
            names_unique(self@),
        ensures
            fields_of(r@) == model_fields(self@),
        decreases self,
    {
        match self {
            LogicalStreamType::Null => {
                assert(fields_of(Seq::<(Vec<Name>, usize)>::empty()) =~= Seq::empty());
                Vec::new()
            },
            LogicalStreamType::Stream(_) => {
                assert(fields_of(Seq::<(Vec<Name>, usize)>::empty()) =~= Seq::empty());
                Vec::new()
            },
            LogicalStreamType::Bits(b) => {
                let r = vec![(Vec::new(), *b)];
                assert(path_model(Seq::<Name>::empty()) =~= Seq::empty());
                assert(fields_of(r@) =~= seq![(Seq::<Seq<char>>::empty(), *b as nat)]);
                r
            },
            LogicalStreamType::Group(f) => {
                proof { lemma_fields_model_len(f@); }
                let ghost fm = fields_model(f@);
                let mut r: Vec<(Vec<Name>, usize)> = Vec::new();
                assert(fields_of(r@) =~= group_fields(fm.take(0)));
                let mut i: usize = 0;
                while i < f.len()
                    invariant
                        i <= f@.len(),
                        fm == fields_model(f@),
                        fm.len() == f@.len(),
                        members_names_unique(fm),
                        fields_of(r@) == group_fields(fm.take(i as int)),
                    decreases f@.len() - i,
                {
                    proof {
                        lemma_fields_model_index(f@, i as int);
                        lemma_members_prefix_unique(fm, i as int);
                        assert(fm.take(i + 1).subrange(0, i as int) =~= fm.take(i as int));
                    }
                    assert(decreases_to!(f => f@[i as int].1));
                    let sub = f[i].1.fields();
                    let ghost base = fields_of(r@);
                    let mut k: usize = 0;
                    while k < sub.len()
                        invariant
                            k <= sub@.len(),
                            fields_of(r@) == base + lifted(fields_of(sub@).take(k as int), fm[i as int].0),
                        decreases sub@.len() - k,
                    {
                        let mut p = copy_path(&sub[k].0);
                        let ghost p0 = path_model(p@);
                        p.push(f[i].0.duplicate());
                        assert(path_model(p@) =~= p0.push(fm[i as int].0));
                        let ghost before = r@;
                        r.push((p, sub[k].1));
                        assert(fields_of(r@) =~= fields_of(before).push((path_model(r@.last().0@), r@.last().1 as nat)));
                        assert(lifted(fields_of(sub@).take(k + 1), fm[i as int].0)
                            =~= lifted(fields_of(sub@).take(k as int), fm[i as int].0).push(
                                (fields_of(sub@)[k as int].0.push(fm[i as int].0), fields_of(sub@)[k as int].1)));
                        k = k + 1;
                    }
                    assert(fields_of(sub@).take(sub@.len() as int) =~= fields_of(sub@));
                    i = i + 1;
                }
                assert(fm.take(f@.len() as int) =~= fm);
                r
            },
            LogicalStreamType::Union(f) => {
                proof { lemma_fields_model_len(f@); }
                let ghost fm = fields_model(f@);
                let mut r: Vec<(Vec<Name>, usize)> = Vec::new();
                if f.len() > 1 {
                    let k = log2_ceil(f.len());
                    proof { lemma_log2c(f@.len() as nat, k as nat); }
                    let tag = Name::try_new("tag");
                    proof {
                        reveal_strlit("tag");
                        assert(crate::name::all_name_chars("tag"@));
                        assert(!crate::name::has_double_underscore("tag"@));
                    }
                    match tag {
                        Ok(t) => {
                            let v = vec![t];
                            assert(path_model(v@) =~= seq!["tag"@]);
                            r.push((v, k));
                        },
                        Err(_) => {},
                    }
                }
                let ghost tagged = fields_of(r@);
                assert(tagged =~= (if fm.len() > 1 { seq![(seq!["tag"@], log2c(fm.len()))] } else { Seq::empty() }));
                let mut b: usize = 0;
                let mut i: usize = 0;
                while i < f.len()
                    invariant
                        i <= f@.len(),
                        fm == fields_model(f@),
                        fm.len() == f@.len(),
                        members_names_unique(fm),
                        b == members_max_bits(fm.take(i as int)),
                    decreases f@.len() - i,
                {
                    proof {
                        lemma_fields_model_index(f@, i as int);
                        lemma_members_prefix_unique(fm, i as int);
                        assert(fm.take(i + 1).subrange(0, i as int) =~= fm.take(i as int));
                    }
                    assert(decreases_to!(f => f@[i as int].1));
                    let sub = f[i].1.fields();
                    let mut m: usize = 0;
                    let mut k: usize = 0;
                    while k < sub.len()
                        invariant
                            k <= sub@.len(),
                            m == max_bits(fields_of(sub@).take(k as int)),
                        decreases sub@.len() - k,
                    {
                        proof {
                            lemma_max_bits_push(fields_of(sub@).take(k as int), fields_of(sub@)[k as int]);
                            assert(fields_of(sub@).take(k + 1) =~= fields_of(sub@).take(k as int).push(fields_of(sub@)[k as int]));
                        }
                        if sub[k].1 > m {
                            m = sub[k].1;
                        }
                        k = k + 1;
                    }
                    assert(fields_of(sub@).take(sub@.len() as int) =~= fields_of(sub@));
                    if m > b {
                        b = m;
                    }
                    i = i + 1;
                }
                assert(fm.take(f@.len() as int) =~= fm);
                if b > 0 {
                    let u = Name::try_new("union");
                    proof {
                        reveal_strlit("union");
                        assert(crate::name::all_name_chars("union"@));
                        assert(!crate::name::has_double_underscore("union"@));
                    }
                    match u {
                        Ok(t) => {
                            let ghost before = r@;
                            let v = vec![t];
                            assert(path_model(v@) =~= seq!["union"@]);
                            r.push((v, b));
                            assert(fields_of(r@) =~= fields_of(before).push((seq!["union"@], b as nat)));
                        },
                        Err(_) => {},
                    }
                }
                assert(fields_of(r@) =~= tagged + (if b > 0 { seq![(seq!["union"@], b as nat)] } else { Seq::<FieldModel>::empty() }));
                r
            },
        }
    }
}

// ---------------------------------------------------------------------
// Equality and compatibility of types.

/// Whether a source of one type can be connected to a sink of another:
/// equal types; stream nodes whose data are compatible where the source
/// has the lower complexity; or groups and unions whose fields pair up by
/// name, in order, with compatible types.
pub open spec fn model_compatible(a: LogicalModel, b: LogicalModel) -> bool
    decreases a,
{
    ||| model_same(a, b)
    ||| match a {
        LogicalModel::Stream(s) => match b {
            LogicalModel::Stream(o) => model_compatible(s.data, o.data) && complexity_lower(s.complexity, o.complexity),
            _ => false,
        },
        _ => false,
    }
    ||| match a {
        LogicalModel::Group(f) => match b {
            LogicalModel::Group(g) => f.len() == g.len() && members_compatible(f, g),
            LogicalModel::Union(g) => f.len() == g.len() && members_compatible(f, g),
            _ => false,
        },
        LogicalModel::Union(f) => match b {
            LogicalModel::Group(g) => f.len() == g.len() && members_compatible(f, g),
            LogicalModel::Union(g) => f.len() == g.len() && members_compatible(f, g),
            _ => false,
        },
        _ => false,
    }
}

/// Whether fields pair up by position with the same names and compatible
/// types.
pub open spec fn members_compatible(f: Seq<(Seq<char>, LogicalModel)>, g: Seq<(Seq<char>, LogicalModel)>) -> bool
    decreases f,
{
    if f.len() == 0 || g.len() == 0 {
        true
    } else {
        members_compatible(f.subrange(0, f.len() - 1), g.subrange(0, g.len() - 1))
            && f.last().0 == g.last().0
            && model_compatible(f.last().1, g.last().1)
    }
}

/// Whether two types are the same: of the same kind, with the same bits,
/// the same members under the same names in the same order, or stream
/// nodes with the same options, whose throughputs denote the same number.
pub open spec fn model_same(a: LogicalModel, b: LogicalModel) -> bool
    decreases a,
{
    match a {
        LogicalModel::Null => b is Null,
        LogicalModel::Bits(x) => b matches LogicalModel::Bits(y) && x == y,
        LogicalModel::Group(f) => match b {
            LogicalModel::Group(g) => members_same(f, g),
            _ => false,
        },
        LogicalModel::Union(f) => match b {
            LogicalModel::Union(g) => members_same(f, g),
            _ => false,
        },
        LogicalModel::Stream(s) => match b {
            LogicalModel::Stream(o) => {
                &&& model_same(s.data, o.data)
                &&& real_eq(s.throughput, o.throughput)
                &&& s.dimensionality == o.dimensionality
                &&& s.synchronicity == o.synchronicity
                &&& s.complexity == o.complexity
                &&& s.direction == o.direction
                &&& s.keep == o.keep
                &&& match s.user {
                    Some(u) => match o.user {
                        Some(v) => model_same(u, v),
                        None => false,
                    },
                    None => o.user is None,
                }
            },
            _ => false,
        },
    }
}

/// Whether fields pair up by position with the same names and the same
/// types.
pub open spec fn members_same(f: Seq<(Seq<char>, LogicalModel)>, g: Seq<(Seq<char>, LogicalModel)>) -> bool
    decreases f,
{
    if f.len() != g.len() {
        false
    } else if f.len() == 0 {
        true
    } else {
        members_same(f.subrange(0, f.len() - 1), g.subrange(0, g.len() - 1))
            && f.last().0 == g.last().0
            && model_same(f.last().1, g.last().1)
    }
}

/// Every type is the same as itself.
pub proof fn lemma_same_reflexive(m: LogicalModel)
    ensures
        model_same(m, m),
    decreases m,
{
    match m {
        LogicalModel::Group(f) => lemma_members_same_reflexive(f),
        LogicalModel::Union(f) => lemma_members_same_reflexive(f),
        LogicalModel::Stream(s) => {
            lemma_same_reflexive(s.data);
            match s.user {
                Some(u) => lemma_same_reflexive(u),
                None => {},
            }
        },
        _ => {},
    }
}

/// Every list of fields is the same as itself.
pub proof fn lemma_members_same_reflexive(f: Seq<(Seq<char>, LogicalModel)>)
    ensures
        members_same(f, f),
    decreases f,
{
    if f.len() > 0 {
        lemma_members_same_reflexive(f.subrange(0, f.len() - 1));
        lemma_same_reflexive(f.last().1);
    }
}

/// Where a prefix of equally long fields differs, so do all.
proof fn lemma_members_same_prefix(f: Seq<(Seq<char>, LogicalModel)>, g: Seq<(Seq<char>, LogicalModel)>, k: int)
    requires
        f.len() == g.len(),
        0 < k <= f.len(),
        !members_same(f.take(k), g.take(k)),
    ensures
        !members_same(f, g),
    decreases f.len() - k,
{
    if k < f.len() {
        assert(f.take(k + 1).subrange(0, k) =~= f.take(k));
        assert(g.take(k + 1).subrange(0, k) =~= g.take(k));
        lemma_members_same_prefix(f, g, k + 1);
    } else {
        assert(f.take(k) =~= f);
        assert(g.take(k) =~= g);
    }
}

impl LogicalStreamType {
    /// Whether two types are the same.
    pub fn same(&self, other: &LogicalStreamType) -> (b: bool)
        ensures
            b == model_same(self@, other@),
        decreases self,
    {
        match self {
            LogicalStreamType::Null => match other {
                LogicalStreamType::Null => true,
                _ => false,
            },
            LogicalStreamType::Bits(x) => match other {
                LogicalStreamType::Bits(y) => *x == *y,
                _ => false,
            },
            LogicalStreamType::Group(f) => match other {
                LogicalStreamType::Group(g) => {
                    assert(self@ == LogicalModel::Group(fields_model(f@)));
                    assert(other@ == LogicalModel::Group(fields_model(g@)));
                    fields_same(f, g)
                },
                _ => false,
            },
            LogicalStreamType::Union(f) => match other {
                LogicalStreamType::Union(g) => {
                    assert(self@ == LogicalModel::Union(fields_model(f@)));
                    assert(other@ == LogicalModel::Union(fields_model(g@)));
                    fields_same(f, g)
                },
                _ => false,
            },
            LogicalStreamType::Stream(s) => match other {
                LogicalStreamType::Stream(o) => {
                    assert(self@ == LogicalModel::Stream(Box::new(stream_model_of(*s))));
                    assert(other@ == LogicalModel::Stream(Box::new(stream_model_of(*o))));
                    s.same(o)
                },
                _ => false,
            },
        }
    }

    /// Whether a source of this type can be connected to a sink of the
    /// other type.
    pub fn compatible(&self, other: &LogicalStreamType) -> (b: bool)
        ensures
            b == model_compatible(self@, other@),
        decreases self,
    {
        if self.same(other) {
            return true;
        }
        match self {
            LogicalStreamType::Stream(s) => match other {
                LogicalStreamType::Stream(o) => {
                    assert(self@ == LogicalModel::Stream(Box::new(stream_model_of(*s))));
                    assert(other@ == LogicalModel::Stream(Box::new(stream_model_of(*o))));
                    assert(decreases_to!(*self => s.data));
                    s.data.compatible(&o.data) && s.complexity.is_lower_than(&o.complexity)
                },
                _ => false,
            },
            LogicalStreamType::Group(f) => {
                assert(self@ == LogicalModel::Group(fields_model(f@)));
                match other {
                    LogicalStreamType::Group(g) => {
                        assert(other@ == LogicalModel::Group(fields_model(g@)));
                        fields_compatible(f, g)
                    },
                    LogicalStreamType::Union(g) => {
                        assert(other@ == LogicalModel::Union(fields_model(g@)));
                        fields_compatible(f, g)
                    },
                    _ => false,
                }
            },
            LogicalStreamType::Union(f) => {
                assert(self@ == LogicalModel::Union(fields_model(f@)));
                match other {
                    LogicalStreamType::Group(g) => {
                        assert(other@ == LogicalModel::Group(fields_model(g@)));
                        fields_compatible(f, g)
                    },
                    LogicalStreamType::Union(g) => {
                        assert(other@ == LogicalModel::Union(fields_model(g@)));
                        fields_compatible(f, g)
                    },
                    _ => false,
                }
            },
            _ => false,
        }
    }
}

impl Stream {
    /// Whether two stream nodes are the same.
    pub fn same(&self, other: &Stream) -> (b: bool)
        ensures
            b == model_same(LogicalModel::Stream(Box::new(stream_model_of(*self))),
                LogicalModel::Stream(Box::new(stream_model_of(*other)))),
        decreases self,
    {
        let d = self.data.same(&other.data);
        let u = match &self.user {
            Some(x) => match &other.user {
                Some(y) => x.same(y),
                None => false,
            },
            None => other.user.is_none(),
        };
        d && u && self.throughput.same(&other.throughput)
            && self.dimensionality == other.dimensionality && self.synchronicity == other.synchronicity
            && self.complexity.same(&other.complexity) && self.direction == other.direction
            && self.keep == other.keep
    }
}

fn fields_same(f: &Vec<(Name, LogicalStreamType)>, g: &Vec<(Name, LogicalStreamType)>) -> (b: bool)
    ensures
        b == members_same(fields_model(f@), fields_model(g@)),
    decreases f,
{
    proof {
        lemma_fields_model_len(f@);
        lemma_fields_model_len(g@);
    }
    if f.len() != g.len() {
        return false;
    }
    let ghost fm = fields_model(f@);
    let ghost gm = fields_model(g@);
    let mut i: usize = 0;
    assert(members_same(fm.take(0), gm.take(0)));
    while i < f.len()
        invariant
            i <= f@.len(),
            f@.len() == g@.len(),
            fm == fields_model(f@),
            gm == fields_model(g@),
            fm.len() == f@.len(),
            gm.len() == g@.len(),
            members_same(fm.take(i as int), gm.take(i as int)),
        decreases f@.len() - i,
    {
        proof {
            lemma_fields_model_index(f@, i as int);
            lemma_fields_model_index(g@, i as int);
            assert(fm.take(i + 1).subrange(0, i as int) =~= fm.take(i as int));
            assert(gm.take(i + 1).subrange(0, i as int) =~= gm.take(i as int));
        }
        assert(decreases_to!(f => f@[i as int].1));
        if !f[i].0.same(&g[i].0) || !f[i].1.same(&g[i].1) {
            proof { lemma_members_same_prefix(fm, gm, i + 1); }
            return false;
        }
        i = i + 1;
    }
    assert(fm.take(f@.len() as int) =~= fm);
    assert(gm.take(g@.len() as int) =~= gm);
    true
}

fn fields_compatible(f: &Vec<(Name, LogicalStreamType)>, g: &Vec<(Name, LogicalStreamType)>) -> (b: bool)
    ensures
        b == (fields_model(f@).len() == fields_model(g@).len() && members_compatible(fields_model(f@), fields_model(g@))),
    decreases f,
{
    proof {
        lemma_fields_model_len(f@);
        lemma_fields_model_len(g@);
    }
    if f.len() != g.len() {
        return false;
    }
    let ghost fm = fields_model(f@);
    let ghost gm = fields_model(g@);
    let mut i: usize = 0;
    assert(members_compatible(fm.take(0), gm.take(0)));
    while i < f.len()
        invariant
            i <= f@.len(),
            f@.len() == g@.len(),
            fm == fields_model(f@),
            gm == fields_model(g@),
            fm.len() == f@.len(),
            gm.len() == g@.len(),
            members_compatible(fm.take(i as int), gm.take(i as int)),
        decreases f@.len() - i,
    {
        proof {
            lemma_fields_model_index(f@, i as int);
            lemma_fields_model_index(g@, i as int);
            assert(fm.take(i + 1).subrange(0, i as int) =~= fm.take(i as int));
            assert(gm.take(i + 1).subrange(0, i as int) =~= gm.take(i as int));
        }
        assert(decreases_to!(f => f@[i as int].1));
        if !f[i].0.same(&g[i].0) || !f[i].1.compatible(&g[i].1) {
            proof { lemma_members_prefix(fm, gm, i + 1); }
            return false;
        }
        i = i + 1;
    }
    assert(fm.take(f@.len() as int) =~= fm);
    assert(gm.take(g@.len() as int) =~= gm);
    true
}

/// Where a prefix of equally long fields fails to pair up, so do all.
proof fn lemma_members_prefix(f: Seq<(Seq<char>, LogicalModel)>, g: Seq<(Seq<char>, LogicalModel)>, k: int)
    requires
        f.len() == g.len(),
        0 < k <= f.len(),
        !members_compatible(f.take(k), g.take(k)),
    ensures
        !members_compatible(f, g),
    decreases f.len() - k,
{
    if k < f.len() {
        assert(f.take(k + 1).subrange(0, k) =~= f.take(k));
        assert(g.take(k + 1).subrange(0, k) =~= g.take(k));
        lemma_members_prefix(f, g, k + 1);
    } else {
        assert(f.take(k) =~= f);
        assert(g.take(k) =~= g);
    }
}

impl LogicalStreamType {
    /// A copy of this type.
    pub fn duplicate(&self) -> (t: LogicalStreamType)
        ensures
            t@ == self@,
        decreases self,
    {
        match self {
            LogicalStreamType::Null => LogicalStreamType::Null,
            LogicalStreamType::Bits(b) => LogicalStreamType::Bits(*b),
            LogicalStreamType::Group(f) => {
                let g = fields_duplicate(f);
                assert(self@ == LogicalModel::Group(fields_model(f@)));
                LogicalStreamType::Group(g)
            },
            LogicalStreamType::Union(f) => {
                let g = fields_duplicate(f);
                assert(self@ == LogicalModel::Union(fields_model(f@)));
                LogicalStreamType::Union(g)
            },
            LogicalStreamType::Stream(s) => {
                assert(self@ == LogicalModel::Stream(Box::new(stream_model_of(*s))));
                LogicalStreamType::Stream(s.duplicate())
            },
        }
    }
}

impl Stream {
    /// A copy of this stream node.
    pub fn duplicate(&self) -> (s: Stream)
        ensures
            stream_model_of(s) == stream_model_of(*self),
        decreases self,
    {
        let user = match &self.user {
            Some(u) => Some(Box::new(u.duplicate())),
            None => None,
        };
        Stream {
            data: Box::new(self.data.duplicate()),
            throughput: self.throughput.duplicate(),
            dimensionality: self.dimensionality,
            synchronicity: self.synchronicity,
            complexity: self.complexity.duplicate(),
            direction: self.direction,
            user,
            keep: self.keep,
        }
    }
}

fn fields_duplicate(f: &Vec<(Name, LogicalStreamType)>) -> (r: Vec<(Name, LogicalStreamType)>)
    ensures
        fields_model(r@) == fields_model(f@),
    decreases f,
{
    proof { lemma_fields_model_len(f@); }
    let mut r: Vec<(Name, LogicalStreamType)> = Vec::new();
    let mut i: usize = 0;
    assert(f@.take(0) =~= Seq::<(Name, LogicalStreamType)>::empty());
    assert(fields_model(r@) =~= Seq::empty());
    while i < f.len()
        invariant
            i <= f@.len(),
            fields_model(r@) == fields_model(f@.take(i as int)),
        decreases f@.len() - i,
    {
        assert(decreases_to!(f => f@[i as int].1));
        let x = (f[i].0.duplicate(), f[i].1.duplicate());
        proof {
            lemma_fields_model_push(r@, x);
            lemma_fields_model_push(f@.take(i as int), f@[i as int]);
            assert(f@.take(i + 1) =~= f@.take(i as int).push(f@[i as int]));
        }
        r.push(x);
        i = i + 1;
    }
    assert(f@.take(f@.len() as int) =~= f@);
    r
}


// ---------------------------------------------------------------------
// Laws of the signal fields, nullness and compatibility.

/// A union of two or more members carries a tag that tells them apart: its
/// signal fields start with a `tag` field of at least one bit, enough bits
/// to number every member.
pub proof fn lemma_union_has_tag(f: Seq<(Seq<char>, LogicalModel)>)
    requires
        f.len() >= 2,
    ensures
        model_fields(LogicalModel::Union(f)).len() >= 1,
        model_fields(LogicalModel::Union(f))[0].0 == seq!["tag"@],
        model_fields(LogicalModel::Union(f))[0].1 >= 1,
        pow2(model_fields(LogicalModel::Union(f))[0].1) >= f.len(),
{
    lemma_log2_ceil_exists(f.len());
    let k = choose|k: nat| is_log2_ceil(f.len(), k);
    lemma_log2c(f.len(), k);
    assert(k >= 1) by {
        if k == 0 {
            assert(pow2(0) == 1);
        }
    }
}

/// A null type gives rise to no signal field.
pub proof fn lemma_null_has_no_fields(m: LogicalModel)
    requires
        model_is_null(m),
    ensures
        model_fields(m).len() == 0,
    decreases m,
{
    match m {
        LogicalModel::Group(f) => lemma_null_members_no_fields(f),
        LogicalModel::Union(f) => {
            assert(f.len() == 1);
            assert(f.subrange(0, 0).len() == 0);
            lemma_all_null_last(f);
            lemma_null_has_no_fields(f.last().1);
            assert(members_max_bits(f.subrange(0, f.len() - 1)) == 0);
            assert(max_bits(model_fields(f.last().1)) == 0);
        },
        _ => {},
    }
}

proof fn lemma_all_null_last(f: Seq<(Seq<char>, LogicalModel)>)
    requires
        f.len() > 0,
        all_null(f),
    ensures
        all_null(f.subrange(0, f.len() - 1)),
        model_is_null(f.last().1),
{
}

proof fn lemma_null_members_no_fields(f: Seq<(Seq<char>, LogicalModel)>)
    requires
        all_null(f),
    ensures
        group_fields(f).len() == 0,
    decreases f,
{
    if f.len() > 0 {
        lemma_null_members_no_fields(f.subrange(0, f.len() - 1));
        lemma_null_has_no_fields(f.last().1);
    }
}

/// A union of two or more members is never null.
pub proof fn lemma_union_of_two_not_null(f: Seq<(Seq<char>, LogicalModel)>)
    requires
        f.len() >= 2,
    ensures
        !model_is_null(LogicalModel::Union(f)),
{
    lemma_union_has_tag(f);
    if model_is_null(LogicalModel::Union(f)) {
        lemma_null_has_no_fields(LogicalModel::Union(f));
    }
}

/// A source stream node can be connected to a sink stream node where its
/// data can be connected to the sink's data and its complexity is lower,
/// whether or not the two data types are the same.
pub proof fn lemma_stream_compatible(s: LogicalStreamModel, o: LogicalStreamModel)
    requires
        model_compatible(s.data, o.data),
        complexity_lower(s.complexity, o.complexity),
    ensures
        model_compatible(LogicalModel::Stream(Box::new(s)), LogicalModel::Stream(Box::new(o))),
{
}

} // verus!
