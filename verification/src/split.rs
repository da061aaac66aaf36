//! Splitting a logical stream type into the signals that stay with its
//! parent and the streams it gives rise to.
//!
//! Each stream that comes out keeps the throughput of its own node; the
//! throughputs of the stream nodes around it, innermost first, come with it
//! as its scale. The throughput of the physical stream is the product of
//! its own throughput and its scale, taken in that order.

use vstd::prelude::*;
use crate::logical::{
    flip_direction, fields_model, lemma_fields_model_index, lemma_fields_model_len,
    lemma_fields_model_push, lst_model, model_is_null, path_model, stream_model_of, Direction,
    LogicalModel, LogicalStreamModel, LogicalStreamType, PositiveReal, Stream, Synchronicity,
};
use crate::name::Name;

verus! {

/// A stream that a type gives rise to: its path of names, its stream node,
/// and the throughputs of the stream nodes around it, innermost first.
pub struct SplitStream {
    /// The names on the way to the stream, innermost first.
    pub path: Vec<Name>,
    /// The stream node, with its data split off from any nested stream.
    pub stream: Stream,
    /// The throughputs by which the node's own throughput is scaled.
    pub scale: Vec<PositiveReal>,
}

/// The signals of a type that stay with its parent, and the streams it
/// gives rise to, in order.
pub struct SplitStreams {
    /// The signals that stay with the parent.
    pub signals: LogicalStreamType,
    /// The streams, each under its own path.
    pub streams: Vec<SplitStream>,
}

/// A stream that comes out of a split: its path, its node and its scale.
pub type SplitEntry = (Seq<Seq<char>>, LogicalStreamModel, Seq<Seq<char>>);

/// The mathematical shape of a split.
pub struct SplitModel {
    pub signals: LogicalModel,
    pub streams: Seq<SplitEntry>,
}

/// The literals of a scale.
pub open spec fn scale_model(s: Seq<PositiveReal>) -> Seq<Seq<char>> {
    s.map_values(|p: PositiveReal| p@)
}

/// The shape of a split stream.
pub open spec fn entry_of(s: SplitStream) -> SplitEntry {
    (path_model(s.path@), stream_model_of(s.stream), scale_model(s.scale@))
}

/// The shapes of split streams.
pub open spec fn entries_of(v: Seq<SplitStream>) -> Seq<SplitEntry> {
    v.map_values(|s: SplitStream| entry_of(s))
}

impl View for SplitStreams {
    type V = SplitModel;

    open spec fn view(&self) -> SplitModel {
        SplitModel { signals: self.signals@, streams: entries_of(self.streams@) }
    }
}

/// The position of the first stream under a path, if there is one.
pub open spec fn path_index(s: Seq<SplitEntry>, p: Seq<Seq<char>>) -> Option<int>
    decreases s.len(),
{
    if s.len() == 0 {
        None
    } else {
        match path_index(s.drop_last(), p) {
            Some(i) => Some(i),
            None => if s.last().0 == p { Some(s.len() - 1) } else { None },
        }
    }
}

/// A stream put in among others: in place of the one under the same path,
/// or last.
pub open spec fn put_entry(s: Seq<SplitEntry>, e: SplitEntry) -> Seq<SplitEntry> {
    match path_index(s, e.0) {
        Some(i) => s.update(i, e),
        None => s.push(e),
    }
}

/// Streams put in among others, one after the other.
pub open spec fn put_entries(s: Seq<SplitEntry>, es: Seq<SplitEntry>) -> Seq<SplitEntry>
    decreases es.len(),
{
    if es.len() == 0 {
        s
    } else {
        put_entry(put_entries(s, es.drop_last()), es.last())
    }
}

/// Streams with a name appended to each path.
pub open spec fn lifted_entries(es: Seq<SplitEntry>, name: Seq<char>) -> Seq<SplitEntry> {
    es.map_values(|e: SplitEntry| (e.0.push(name), e.1, e.2))
}

/// A nested stream node as it comes out below a parent node: reversed
/// under a reverse parent; flattened and desynchronised under a flattening
/// parent; its dimensionality raised by the parent's unless it flattens
/// or the parent is flattened and desynchronised.
pub open spec fn adjusted(parent: LogicalStreamModel, c: LogicalStreamModel) -> LogicalStreamModel {
    let direction = if parent.direction == Direction::Reverse {
        flip_direction(c.direction)
    } else {
        c.direction
    };
    let synchronicity = if parent.synchronicity == Synchronicity::Flatten
        || parent.synchronicity == Synchronicity::FlatDesync {
        Synchronicity::FlatDesync
    } else {
        c.synchronicity
    };
    let dimensionality = if synchronicity != Synchronicity::Flatten
        && parent.synchronicity != Synchronicity::FlatDesync {
        c.dimensionality + parent.dimensionality
    } else {
        c.dimensionality
    };
    LogicalStreamModel {
        data: c.data,
        throughput: c.throughput,
        dimensionality,
        synchronicity,
        complexity: c.complexity,
        direction,
        user: c.user,
        keep: c.keep,
    }
}

/// A nested stream as it comes out below a parent node, the parent's
/// throughput added to its scale.
pub open spec fn child_entry(parent: LogicalStreamModel, e: SplitEntry) -> SplitEntry {
    (e.0, adjusted(parent, e.1), e.2.push(parent.throughput))
}

/// A stream node with other data.
pub open spec fn with_data(s: LogicalStreamModel, data: LogicalModel) -> LogicalStreamModel {
    LogicalStreamModel {
        data,
        throughput: s.throughput,
        dimensionality: s.dimensionality,
        synchronicity: s.synchronicity,
        complexity: s.complexity,
        direction: s.direction,
        user: s.user,
        keep: s.keep,
    }
}

/// Whether a stream node gives rise to a stream of its own: its element
/// signals are not null, it carries user data that is not null, or it is
/// kept.
pub open spec fn keeps_element(s: LogicalStreamModel, signals: LogicalModel) -> bool {
    ||| !model_is_null(signals)
    ||| (match s.user {
        Some(u) => !model_is_null(u),
        None => false,
    })
    ||| s.keep
}

/// The split of a type. Null and bits stay as signals. A group or union
/// keeps the signals of its members under their names, and gives rise to
/// their streams, each path extended with the member's name. A stream node
/// leaves no signals: it gives rise to a stream carrying its element
/// signals under the empty path where `keeps_element` holds, and to the
/// streams nested in its data, adjusted below it.
pub open spec fn model_split(m: LogicalModel) -> SplitModel
    decreases m,
{
    match m {
        LogicalModel::Null => SplitModel { signals: m, streams: Seq::empty() },
        LogicalModel::Bits(_) => SplitModel { signals: m, streams: Seq::empty() },
        LogicalModel::Group(f) => SplitModel {
            signals: LogicalModel::Group(members_signals(f)),
            streams: members_streams(f),
        },
        LogicalModel::Union(f) => SplitModel {
            signals: LogicalModel::Union(members_signals(f)),
            streams: members_streams(f),
        },
        LogicalModel::Stream(s) => {
            let inner = model_split(s.data);
            let first: Seq<SplitEntry> = if keeps_element(*s, inner.signals) {
                seq![(Seq::empty(), with_data(*s, inner.signals), Seq::empty())]
            } else {
                Seq::empty()
            };
            SplitModel {
                signals: LogicalModel::Null,
                streams: put_entries(first, inner.streams.map_values(|e: SplitEntry| child_entry(*s, e))),
            }
        },
    }
}

/// The signals of the members, under their names.
pub open spec fn members_signals(f: Seq<(Seq<char>, LogicalModel)>) -> Seq<(Seq<char>, LogicalModel)>
    decreases f,
{
    if f.len() == 0 {
        Seq::empty()
    } else {
        members_signals(f.subrange(0, f.len() - 1)).push((f.last().0, model_split(f.last().1).signals))
    }
}

/// The streams of the members, in order, each path extended with the
/// member's name.
pub open spec fn members_streams(f: Seq<(Seq<char>, LogicalModel)>) -> Seq<SplitEntry>
    decreases f,
{
    if f.len() == 0 {
        Seq::empty()
    } else {
        put_entries(
            members_streams(f.subrange(0, f.len() - 1)),
            lifted_entries(model_split(f.last().1).streams, f.last().0),
        )
    }
}

/// The largest sum of dimensionalities along a chain of nested stream
/// nodes.
pub open spec fn dim_depth(m: LogicalModel) -> nat
    decreases m,
{
    match m {
        LogicalModel::Null => 0,
        LogicalModel::Bits(_) => 0,
        LogicalModel::Group(f) => members_dim_depth(f),
        LogicalModel::Union(f) => members_dim_depth(f),
        LogicalModel::Stream(s) => s.dimensionality + dim_depth(s.data),
    }
}

/// The largest of the members' `dim_depth`.
pub open spec fn members_dim_depth(f: Seq<(Seq<char>, LogicalModel)>) -> nat
    decreases f,
{
    if f.len() == 0 {
        0
    } else {
        let a = members_dim_depth(f.subrange(0, f.len() - 1));
        let b = dim_depth(f.last().1);
        if a > b { a } else { b }
    }
}

// ---------------------------------------------------------------------
// Facts about putting streams in.

proof fn lemma_path_index(s: Seq<SplitEntry>, p: Seq<Seq<char>>)
    ensures
        match path_index(s, p) {
            Some(i) => 0 <= i < s.len() && s[i].0 == p && forall|j: int| 0 <= j < i ==> (#[trigger] s[j]).0 != p,
            None => forall|j: int| 0 <= j < s.len() ==> (#[trigger] s[j]).0 != p,
        },
    decreases s.len(),
{
    if s.len() > 0 {
        lemma_path_index(s.drop_last(), p);
        assert forall|j: int| 0 <= j < s.len() - 1 implies #[trigger] s[j] == s.drop_last()[j] by {}
    }
}

/// Every stream that a put gives holds a property where all streams put
/// together do.
pub proof fn lemma_put_entry_all(s: Seq<SplitEntry>, e: SplitEntry, q: spec_fn(SplitEntry) -> bool)
    requires
        forall|j: int| 0 <= j < s.len() ==> q(#[trigger] s[j]),
        q(e),
    ensures
        forall|j: int| 0 <= j < put_entry(s, e).len() ==> q(#[trigger] put_entry(s, e)[j]),
{
    lemma_path_index(s, e.0);
}

/// Every stream that puts give holds a property where all streams put
/// together do.
pub proof fn lemma_put_entries_all(s: Seq<SplitEntry>, es: Seq<SplitEntry>, q: spec_fn(SplitEntry) -> bool)
    requires
        forall|j: int| 0 <= j < s.len() ==> q(#[trigger] s[j]),
        forall|j: int| 0 <= j < es.len() ==> q(#[trigger] es[j]),
    ensures
        forall|j: int| 0 <= j < put_entries(s, es).len() ==> q(#[trigger] put_entries(s, es)[j]),
    decreases es.len(),
{
    if es.len() > 0 {
        assert forall|j: int| 0 <= j < es.len() - 1 implies q(#[trigger] es.drop_last()[j]) by {
            assert(es.drop_last()[j] == es[j]);
        }
        lemma_put_entries_all(s, es.drop_last(), q);
        lemma_put_entry_all(put_entries(s, es.drop_last()), es.last(), q);
    }
}

proof fn lemma_put_entries_step(s: Seq<SplitEntry>, es: Seq<SplitEntry>, k: int)
    requires
        0 <= k < es.len(),
    ensures
        put_entries(s, es.take(k + 1)) == put_entry(put_entries(s, es.take(k)), es[k]),
{
    assert(es.take(k + 1).drop_last() =~= es.take(k));
}

// ---------------------------------------------------------------------
// Putting a stream in.

/// Whether two paths are the same.
fn same_path(a: &Vec<Name>, b: &Vec<Name>) -> (r: bool)
    ensures
        r == (path_model(a@) == path_model(b@)),
{
    if a.len() != b.len() {
        assert(path_model(a@).len() != path_model(b@).len());
        return false;
    }
    let mut i: usize = 0;
    while i < a.len()
        invariant
            i <= a@.len(),
            a@.len() == b@.len(),
            forall|k: int| 0 <= k < i ==> (#[trigger] a@[k])@ == b@[k]@,
        decreases a@.len() - i,
    {
        if !a[i].same(&b[i]) {
            assert(path_model(a@)[i as int] != path_model(b@)[i as int]);
            return false;
        }
        i = i + 1;
    }
    assert(path_model(a@) =~= path_model(b@));
    true
}

/// Puts a stream in among others: in place of the one under the same path,
/// or last.
fn put_stream(v: &mut Vec<SplitStream>, e: SplitStream)
    ensures
        entries_of(final(v)@) == put_entry(entries_of(old(v)@), entry_of(e)),
{
    let ghost s = entries_of(v@);
    let ghost p = entry_of(e).0;
    let mut j: usize = 0;
    while j < v.len()
        invariant
            j <= v@.len(),
            s == entries_of(v@),
            v@ == old(v)@,
            p == path_model(e.path@),
            forall|k: int| 0 <= k < j ==> (#[trigger] s[k]).0 != p,
        decreases v@.len() - j,
    {
        if same_path(&v[j].path, &e.path) {
            proof {
                lemma_path_index(s, p);
                assert(s[j as int].0 == p);
            }
            v[j] = e;
            assert(entries_of(v@) =~= s.update(j as int, entry_of(e)));
            return;
        }
        j = j + 1;
    }
    proof { lemma_path_index(s, p); }
    v.push(e);
    assert(entries_of(v@) =~= s.push(entry_of(e)));
}

proof fn lemma_member_depth(f: Seq<(Seq<char>, LogicalModel)>, i: int)
    requires
        0 <= i < f.len(),
    ensures
        dim_depth(f[i].1) <= members_dim_depth(f),
    decreases f.len(),
{
    if i < f.len() - 1 {
        lemma_member_depth(f.subrange(0, f.len() - 1), i);
    }
}

// ---------------------------------------------------------------------
// Splitting.

impl LogicalStreamType {
    /// Splits this type into the signals that stay with its parent and the
    /// streams it gives rise to, as `model_split` says. The dimensionality
    /// of a stream that comes out is at most `dim_depth` of the type.
    pub fn split(&self) -> (r: SplitStreams)
        requires
            dim_depth(self@) <= usize::MAX,
        ensures
            r@ == model_split(self@),
            forall|i: int| 0 <= i < r@.streams.len()
                ==> (#[trigger] r@.streams[i]).1.dimensionality <= dim_depth(self@),
        decreases self,
    {
        match self {
            LogicalStreamType::Null => {
                assert(entries_of(Seq::<SplitStream>::empty()) =~= Seq::empty());
                SplitStreams { signals: LogicalStreamType::Null, streams: Vec::new() }
            },
            LogicalStreamType::Bits(b) => {
                assert(entries_of(Seq::<SplitStream>::empty()) =~= Seq::empty());
                SplitStreams { signals: LogicalStreamType::Bits(*b), streams: Vec::new() }
            },
            LogicalStreamType::Group(f) => {
                assert(self@ == LogicalModel::Group(fields_model(f@)));
                let (g, streams) = split_members(f);
                SplitStreams { signals: LogicalStreamType::Group(g), streams }
            },
            LogicalStreamType::Union(f) => {
                assert(self@ == LogicalModel::Union(fields_model(f@)));
                let (g, streams) = split_members(f);
                SplitStreams { signals: LogicalStreamType::Union(g), streams }
            },
            LogicalStreamType::Stream(s) => {
                assert(self@ == LogicalModel::Stream(Box::new(stream_model_of(*s))));
                split_stream(s)
            },
        }
    }
}

/// Splits the members of a group or union.
#[verifier::loop_isolation(false)]
fn split_members(f: &Vec<(Name, LogicalStreamType)>) -> (r: (Vec<(Name, LogicalStreamType)>, Vec<SplitStream>))
    requires
        members_dim_depth(fields_model(f@)) <= usize::MAX,
    ensures
        fields_model(r.0@) == members_signals(fields_model(f@)),
        entries_of(r.1@) == members_streams(fields_model(f@)),
        forall|i: int| 0 <= i < r.1@.len()
            ==> (#[trigger] entries_of(r.1@)[i]).1.dimensionality <= members_dim_depth(fields_model(f@)),
    decreases f,
{
    proof { lemma_fields_model_len(f@); }
    let ghost fm = fields_model(f@);
    let ghost bound = members_dim_depth(fm);
    let mut sig: Vec<(Name, LogicalStreamType)> = Vec::new();
    let mut out: Vec<SplitStream> = Vec::new();
    assert(fields_model(sig@) =~= members_signals(fm.take(0)));
    assert(entries_of(out@) =~= members_streams(fm.take(0)));
    let mut i: usize = 0;
    while i < f.len()
        invariant
            i <= f@.len(),
            fm == fields_model(f@),
            fm.len() == f@.len(),
            bound == members_dim_depth(fm),
            bound <= usize::MAX,
            fields_model(sig@) == members_signals(fm.take(i as int)),
            entries_of(out@) == members_streams(fm.take(i as int)),
            forall|k: int| 0 <= k < out@.len() ==> (#[trigger] entries_of(out@)[k]).1.dimensionality <= bound,
        decreases f@.len() - i,
    {
        proof {
            lemma_fields_model_index(f@, i as int);
            lemma_member_depth(fm, i as int);
            assert(fm.take(i + 1).subrange(0, i as int) =~= fm.take(i as int));
            assert(fm.take(i + 1).last() == fm[i as int]);
        }
        assert(decreases_to!(f => f@[i as int].1));
        let sub = f[i].1.split();
        let SplitStreams { signals, streams } = sub;
        let ghost name_m = fm[i as int].0;
        let x = (f[i].0.duplicate(), signals);
        proof { lemma_fields_model_push(sig@, x); }
        sig.push(x);
        let ghost orig = entries_of(streams@);
        let ghost lifted = lifted_entries(orig, name_m);
        let ghost base = entries_of(out@);
        let mut rest = streams;
        let ghost mut k: int = 0;
        assert(lifted.take(0) =~= Seq::<SplitEntry>::empty());
        assert(orig.skip(0) =~= orig);
        while rest.len() > 0
            invariant
                0 <= k <= orig.len(),
                entries_of(rest@) == orig.skip(k),
                lifted == lifted_entries(orig, name_m),
                entries_of(out@) == put_entries(base, lifted.take(k)),
                forall|j: int| 0 <= j < orig.len() ==> (#[trigger] orig[j]).1.dimensionality <= bound,
                forall|j: int| 0 <= j < out@.len() ==> (#[trigger] entries_of(out@)[j]).1.dimensionality <= bound,
            decreases rest@.len(),
        {
            let ghost before = rest@;
            let mut e = rest.remove(0);
            proof {
                assert(entries_of(before)[0] == entry_of(e));
                assert(orig.skip(k)[0] == orig[k]);
                assert(rest@ =~= before.skip(1));
                assert(entries_of(before.skip(1)) =~= entries_of(before).skip(1));
                assert(orig.skip(k).skip(1) =~= orig.skip(k + 1));
            }
            let ghost p0 = path_model(e.path@);
            e.path.push(f[i].0.duplicate());
            assert(path_model(e.path@) =~= p0.push(name_m));
            assert(entry_of(e) == lifted[k]);
            proof {
                lemma_put_entries_step(base, lifted, k);
                let q = |x: SplitEntry| x.1.dimensionality <= bound;
                assert forall|j: int| 0 <= j < entries_of(out@).len() implies q(#[trigger] entries_of(out@)[j]) by {}
                lemma_put_entry_all(entries_of(out@), entry_of(e), q);
            }
            put_stream(&mut out, e);
            proof { k = k + 1; }
        }
        assert(lifted.take(k) =~= lifted);
        i = i + 1;
    }
    assert(fm.take(f@.len() as int) =~= fm);
    (sig, out)
}

/// Splits a stream node.
#[verifier::loop_isolation(false)]
fn split_stream(s: &Stream) -> (r: SplitStreams)
    requires
        dim_depth(LogicalModel::Stream(Box::new(stream_model_of(*s)))) <= usize::MAX,
    ensures
        r@ == model_split(LogicalModel::Stream(Box::new(stream_model_of(*s)))),
        forall|i: int| 0 <= i < r@.streams.len() ==> (#[trigger] r@.streams[i]).1.dimensionality
            <= dim_depth(LogicalModel::Stream(Box::new(stream_model_of(*s)))),
    decreases s,
{
    let ghost sm = stream_model_of(*s);
    let ghost bound = dim_depth(LogicalModel::Stream(Box::new(sm)));
    assert(bound == sm.dimensionality + dim_depth(sm.data));
    let inner = s.data.split();
    let ghost inner_m = model_split(sm.data);
    let SplitStreams { signals, streams } = inner;
    let ghost sig_m = signals@;
    let user_present = match &s.user {
        Some(u) => !u.is_null(),
        None => false,
    };
    let mut out: Vec<SplitStream> = Vec::new();
    if !signals.is_null() || user_present || s.keep {
        let user = match &s.user {
            Some(u) => Some(Box::new(u.duplicate())),
            None => None,
        };
        let element = Stream {
            data: Box::new(signals),
            throughput: s.throughput.duplicate(),
            dimensionality: s.dimensionality,
            synchronicity: s.synchronicity,
            complexity: s.complexity.duplicate(),
            direction: s.direction,
            user,
            keep: s.keep,
        };
        assert(stream_model_of(element) == with_data(sm, sig_m));
        let path: Vec<Name> = Vec::new();
        let scale: Vec<PositiveReal> = Vec::new();
        assert(path_model(path@) =~= Seq::empty());
        assert(scale_model(scale@) =~= Seq::empty());
        out.push(SplitStream { path, stream: element, scale });
        assert(entries_of(out@) =~= seq![(Seq::<Seq<char>>::empty(), with_data(sm, sig_m), Seq::<Seq<char>>::empty())]);
    } else {
        assert(entries_of(out@) =~= Seq::empty());
    }
    let ghost first = entries_of(out@);
    let ghost orig = entries_of(streams@);
    let ghost children = orig.map_values(|e: SplitEntry| child_entry(sm, e));
    let mut rest = streams;
    let ghost mut k: int = 0;
    assert(children.take(0) =~= Seq::<SplitEntry>::empty());
    assert(orig.skip(0) =~= orig);
    while rest.len() > 0
        invariant
            0 <= k <= orig.len(),
            entries_of(rest@) == orig.skip(k),
            children == orig.map_values(|e: SplitEntry| child_entry(sm, e)),
            entries_of(out@) == put_entries(first, children.take(k)),
            forall|j: int| 0 <= j < orig.len() ==> (#[trigger] orig[j]).1.dimensionality <= dim_depth(sm.data),
            forall|j: int| 0 <= j < out@.len() ==> (#[trigger] entries_of(out@)[j]).1.dimensionality <= bound,
        decreases rest@.len(),
    {
        let ghost before = rest@;
        let mut e = rest.remove(0);
        proof {
            assert(entries_of(before)[0] == entry_of(e));
            assert(orig.skip(k)[0] == orig[k]);
            assert(rest@ =~= before.skip(1));
            assert(entries_of(before.skip(1)) =~= entries_of(before).skip(1));
            assert(orig.skip(k).skip(1) =~= orig.skip(k + 1));
        }
        let ghost e0 = entry_of(e);
        if s.direction == Direction::Reverse {
            e.stream.direction = e.stream.direction.reversed();
        }
        if s.synchronicity == Synchronicity::Flatten || s.synchronicity == Synchronicity::FlatDesync {
            e.stream.synchronicity = Synchronicity::FlatDesync;
        }
        if e.stream.synchronicity != Synchronicity::Flatten && s.synchronicity != Synchronicity::FlatDesync {
            e.stream.dimensionality = e.stream.dimensionality + s.dimensionality;
        }
        let ghost sc0 = scale_model(e.scale@);
        e.scale.push(s.throughput.duplicate());
        assert(scale_model(e.scale@) =~= sc0.push(sm.throughput));
        assert(stream_model_of(e.stream) == adjusted(sm, e0.1));
        assert(entry_of(e) == children[k]);
        proof {
            lemma_put_entries_step(first, children, k);
            let q = |x: SplitEntry| x.1.dimensionality <= bound;
            assert forall|j: int| 0 <= j < entries_of(out@).len() implies q(#[trigger] entries_of(out@)[j]) by {}
            lemma_put_entry_all(entries_of(out@), entry_of(e), q);
        }
        put_stream(&mut out, e);
        proof { k = k + 1; }
    }
    assert(children.take(k) =~= children);
    SplitStreams { signals: LogicalStreamType::Null, streams: out }
}

// ---------------------------------------------------------------------
// What a split keeps apart.

/// Whether a type is a stream node or holds one among its group and union
/// members.
pub open spec fn has_stream(m: LogicalModel) -> bool
    decreases m,
{
    match m {
        LogicalModel::Null => false,
        LogicalModel::Bits(_) => false,
        LogicalModel::Group(f) => members_have_stream(f),
        LogicalModel::Union(f) => members_have_stream(f),
        LogicalModel::Stream(_) => true,
    }
}

/// Whether a member holds a stream node.
pub open spec fn members_have_stream(f: Seq<(Seq<char>, LogicalModel)>) -> bool
    decreases f,
{
    if f.len() == 0 {
        false
    } else {
        members_have_stream(f.subrange(0, f.len() - 1)) || has_stream(f.last().1)
    }
}

/// Splitting leaves no stream node among the signals that stay with the
/// parent, nor in the data of any stream that comes out.
pub proof fn lemma_split_separates(m: LogicalModel)
    ensures
        !has_stream(model_split(m).signals),
        forall|i: int| 0 <= i < model_split(m).streams.len()
            ==> !has_stream((#[trigger] model_split(m).streams[i]).1.data),
    decreases m,
{
    let q = |e: SplitEntry| !has_stream(e.1.data);
    match m {
        LogicalModel::Group(f) => {
            lemma_members_split_separates(f);
        },
        LogicalModel::Union(f) => {
            lemma_members_split_separates(f);
        },
        LogicalModel::Stream(s) => {
            let inner = model_split(s.data);
            lemma_split_separates(s.data);
            let first: Seq<SplitEntry> = if keeps_element(*s, inner.signals) {
                seq![(Seq::empty(), with_data(*s, inner.signals), Seq::empty())]
            } else {
                Seq::empty()
            };
            let children = inner.streams.map_values(|e: SplitEntry| child_entry(*s, e));
            assert forall|j: int| 0 <= j < first.len() implies q(#[trigger] first[j]) by {}
            assert forall|j: int| 0 <= j < children.len() implies q(#[trigger] children[j]) by {
                assert(children[j].1.data == inner.streams[j].1.data);
            }
            lemma_put_entries_all(first, children, q);
        },
        _ => {},
    }
}

/// The members' half of `lemma_split_separates`.
pub proof fn lemma_members_split_separates(f: Seq<(Seq<char>, LogicalModel)>)
    ensures
        !members_have_stream(members_signals(f)),
        forall|i: int| 0 <= i < members_streams(f).len()
            ==> !has_stream((#[trigger] members_streams(f)[i]).1.data),
    decreases f,
{
    if f.len() > 0 {
        let prefix = f.subrange(0, f.len() - 1);
        let q = |e: SplitEntry| !has_stream(e.1.data);
        lemma_members_split_separates(prefix);
        lemma_split_separates(f.last().1);
        let sig = members_signals(prefix);
        let x = (f.last().0, model_split(f.last().1).signals);
        assert(sig.push(x).subrange(0, sig.len() as int) =~= sig);
        let lifted = lifted_entries(model_split(f.last().1).streams, f.last().0);
        assert forall|j: int| 0 <= j < members_streams(prefix).len()
            implies q(#[trigger] members_streams(prefix)[j]) by {}
        assert forall|j: int| 0 <= j < lifted.len() implies q(#[trigger] lifted[j]) by {
            assert(lifted[j].1 == model_split(f.last().1).streams[j].1);
        }
        lemma_put_entries_all(members_streams(prefix), lifted, q);
    }
}

/// A type without stream nodes stays whole as signals and gives rise to no
/// stream.
pub proof fn lemma_split_without_streams(m: LogicalModel)
    requires
        !has_stream(m),
    ensures
        model_split(m) == (SplitModel { signals: m, streams: Seq::empty() }),
    decreases m,
{
    match m {
        LogicalModel::Group(f) => {
            lemma_members_split_without_streams(f);
        },
        LogicalModel::Union(f) => {
            lemma_members_split_without_streams(f);
        },
        _ => {},
    }
}

/// The members' half of `lemma_split_without_streams`.
pub proof fn lemma_members_split_without_streams(f: Seq<(Seq<char>, LogicalModel)>)
    requires
        !members_have_stream(f),
    ensures
        members_signals(f) == f,
        members_streams(f) == Seq::<SplitEntry>::empty(),
    decreases f,
{
    if f.len() > 0 {
        let prefix = f.subrange(0, f.len() - 1);
        lemma_members_split_without_streams(prefix);
        lemma_split_without_streams(f.last().1);
        assert(prefix.push(f.last()) =~= f);
        let lifted = lifted_entries(model_split(f.last().1).streams, f.last().0);
        assert(lifted =~= Seq::<SplitEntry>::empty());
    }
}


/// The direction a nested stream takes below a parent stream node: flipped
/// under a reverse parent, kept under a forward one.
pub open spec fn direction_below(parent: Direction, own: Direction) -> Direction {
    if parent == Direction::Reverse {
        match own {
            Direction::Forward => Direction::Reverse,
            Direction::Reverse => Direction::Forward,
        }
    } else {
        own
    }
}

/// Below a stream node, every stream that comes out is either the node's
/// own element stream, under the empty path and in the node's direction, or
/// a stream nested in its data, under that stream's path, whose direction
/// is flipped where the node is reverse and kept where it is forward (a
/// reverse stream in a reverse stream comes out forward).
pub proof fn lemma_split_directions(s: LogicalStreamModel)
    ensures
        forall|i: int| 0 <= i < model_split(LogicalModel::Stream(Box::new(s))).streams.len() ==> {
            let e = #[trigger] model_split(LogicalModel::Stream(Box::new(s))).streams[i];
            let inner = model_split(s.data).streams;
            ||| (keeps_element(s, model_split(s.data).signals) && e.0.len() == 0 && e.1.direction == s.direction)
            ||| exists|j: int| 0 <= j < inner.len() && e.0 == (#[trigger] inner[j]).0
                && e.1.direction == direction_below(s.direction, inner[j].1.direction)
        },
{
    let inner = model_split(s.data);
    let first: Seq<SplitEntry> = if keeps_element(s, inner.signals) {
        seq![(Seq::empty(), with_data(s, inner.signals), Seq::empty())]
    } else {
        Seq::empty()
    };
    let children = inner.streams.map_values(|e: SplitEntry| child_entry(s, e));
    let q = |e: SplitEntry| {
        ||| (keeps_element(s, inner.signals) && e.0.len() == 0 && e.1.direction == s.direction)
        ||| exists|j: int| 0 <= j < inner.streams.len() && e.0 == (#[trigger] inner.streams[j]).0
            && e.1.direction == direction_below(s.direction, inner.streams[j].1.direction)
    };
    assert forall|j: int| 0 <= j < first.len() implies q(#[trigger] first[j]) by {}
    assert forall|j: int| 0 <= j < children.len() implies q(#[trigger] children[j]) by {
        let c = inner.streams[j];
        assert(children[j] == child_entry(s, c));
        assert(children[j].0 == inner.streams[j].0);
        assert(children[j].1.direction == direction_below(s.direction, c.1.direction));
    }
    lemma_put_entries_all(first, children, q);
    let out = model_split(LogicalModel::Stream(Box::new(s))).streams;
    assert(out == put_entries(first, children));
    assert forall|i: int| 0 <= i < out.len() implies q(#[trigger] out[i]) by {}
}

} // verus!
