//! Tydi streamspace types.

use vstd::prelude::*;
use crate::phys::{dir_flip, opt_view, copy_opt_string, BitField, BitFieldModel, bf_model, bf_models, Complexity, Dir, Stream};
use crate::text::{copy_strings, join_underscore, join_with_underscore, texts};

verus! {

/// Parameters of River types.
#[derive(Clone, Debug, Default, PartialEq)]
pub struct RiverParameters {
    /// N: number of elements per handshake.
    pub elements: Option<usize>,
    /// C: complexity level.
    pub complexity: Option<usize>,
    /// U: number of user bits.
    pub userbits: Option<usize>,
}

/// A potentially nested structure expressing a Streamspace type tree.
#[derive(Debug, PartialEq)]
pub enum River {
    /// Bits is a primitive element with `width` bits.
    Bits { identifier: Option<String>, width: usize },
    /// Group concatenates all (nested) elements of inner `River` types into a
    /// single phys stream element.
    Group { identifier: Option<String>, inner: Vec<River> },
    /// Union defines a `B`-bits element, where `B` is the maximum `width`
    /// value of the `inner` River types.
    Union { identifier: Option<String>, inner: Vec<River> },
    /// Dim creates a streamspace of elements with inner `River` type in the
    /// next dimension w.r.t. its parent.
    Dim { identifier: Option<String>, inner: Box<River>, parameters: RiverParameters },
    /// Rev creates a new phys stream with inner `River` types that flows
    /// in reverse direction w.r.t. its parent.
    Rev { identifier: Option<String>, inner: Box<River>, parameters: RiverParameters },
    /// New creates a new phys stream of elements with inner `River` type
    /// in the parent space `D_{p}`.
    New { identifier: Option<String>, inner: Box<River>, parameters: RiverParameters },
    /// Root creates an initial streamspace `D_{0}`.
    Root { identifier: Option<String>, inner: Box<River>, parameters: RiverParameters },
}

/// The identifier of a river type, whatever its variant.
pub open spec fn river_identifier(r: River) -> Option<String> {
    match r {
        River::Bits { identifier, .. } => identifier,
        River::Group { identifier, .. } => identifier,
        River::Union { identifier, .. } => identifier,
        River::Dim { identifier, .. } => identifier,
        River::Rev { identifier, .. } => identifier,
        River::New { identifier, .. } => identifier,
        River::Root { identifier, .. } => identifier,
    }
}

/// The element width of a river type: bits count themselves, a group adds
/// up its members, a union takes its widest member, and the stream-creating
/// variants contribute nothing to the element of their parent.
pub open spec fn river_width(r: River) -> nat
    decreases r,
{
    match r {
        River::Bits { width, .. } => width as nat,
        River::Group { inner, .. } => rivers_width_sum(inner@),
        River::Union { inner, .. } => rivers_width_max(inner@),
        _ => 0,
    }
}

/// The sum of the widths of a sequence of river types.
pub open spec fn rivers_width_sum(s: Seq<River>) -> nat
    decreases s,
{
    if s.len() == 0 {
        0
    } else {
        rivers_width_sum(s.drop_last()) + river_width(s.last())
    }
}

/// The largest width in a sequence of river types, 0 for none.
pub open spec fn rivers_width_max(s: Seq<River>) -> nat
    decreases s,
{
    if s.len() == 0 {
        0
    } else {
        let m = rivers_width_max(s.drop_last());
        let w = river_width(s.last());
        if w > m { w } else { m }
    }
}

/// Facts on the `i`-th member of a group, from the facts on the group.
proof fn lemma_members_prefix(s: Seq<River>, i: int)
    requires
        0 <= i < s.len(),
    ensures
        members_have_phys(s) ==> (match s[i] {
            River::Bits { .. } => true,
            f => has_phys(f),
        }),
        dim_nesting(s[i]) <= members_dim_nesting(s),
    decreases s.len(),
{
    if i < s.len() - 1 {
        lemma_members_prefix(s.drop_last(), i);
    }
}

proof fn lemma_width_sum_prefix(s: Seq<River>, i: int)
    requires
        0 <= i <= s.len(),
    ensures
        rivers_width_sum(s.take(i)) <= rivers_width_sum(s),
    decreases s.len() - i,
{
    if i < s.len() {
        lemma_width_sum_prefix(s, i + 1);
        assert(s.take(i + 1).drop_last() =~= s.take(i));
    } else {
        assert(s.take(i) =~= s);
    }
}

proof fn lemma_width_max_bound(s: Seq<River>, i: int)
    requires
        0 <= i < s.len(),
    ensures
        river_width(s[i]) <= rivers_width_max(s),
        rivers_width_max(s.take(i)) <= rivers_width_max(s),
    decreases s.len(),
{
    if i < s.len() - 1 {
        lemma_width_max_bound(s.drop_last(), i);
        assert(s.drop_last().take(i) =~= s.take(i));
    } else {
        assert(s.drop_last() =~= s.take(i));
    }
}

/// An identifier's text, or `data` when there is none.
pub open spec fn id_or_data(id: Option<String>) -> Seq<char> {
    match id {
        Some(s) => s@,
        None => "data"@,
    }
}

/// A field name after a prefix and an underscore, when a prefix is given.
pub open spec fn prefixed(prefix: Option<Seq<char>>, suffix: Seq<char>) -> Seq<char> {
    match prefix {
        Some(p) => p + "_"@ + suffix,
        None => suffix,
    }
}

/// The bit fields of the physical stream a river type belongs to: a bits
/// type is one leaf field; a group is a field whose children are the
/// fields of its members that have any; either is named after its
/// identifier (after `prefix` and an underscore, when given); other
/// variants have none.
pub open spec fn river_bit_fields(r: River, prefix: Option<Seq<char>>) -> Option<BitFieldModel>
    decreases r,
{
    match r {
        River::Group { identifier, inner } => Some(BitFieldModel {
            identifier: Some(prefixed(prefix, id_or_data(identifier))),
            width: 0,
            children: river_child_fields(inner@),
        }),
        River::Bits { identifier, width } => Some(BitFieldModel {
            identifier: Some(prefixed(prefix, id_or_data(identifier))),
            width: width as nat,
            children: seq![],
        }),
        _ => None,
    }
}

/// The bit fields of the members of a group, in order, skipping members
/// without any.
pub open spec fn river_child_fields(s: Seq<River>) -> Seq<BitFieldModel>
    decreases s,
{
    if s.len() == 0 {
        seq![]
    } else {
        let rest = river_child_fields(s.drop_last());
        match river_bit_fields(s.last(), None) {
            Some(b) => rest.push(b),
            None => rest,
        }
    }
}

fn id_or_data_string(id: &Option<String>) -> (s: String)
    ensures
        s@ == id_or_data(*id),
{
    match id {
        Some(s) => s.clone(),
        None => String::from_str("data"),
    }
}

/// The name parts extended with an optional last part.
pub open spec fn extended(parts: Seq<Seq<char>>, elem: Option<String>) -> Seq<Seq<char>> {
    match elem {
        Some(e) => parts.push(e@),
        None => parts,
    }
}

/// The vector with the element appended when there is one.
pub fn extend_some(vec: &Vec<String>, elem: &Option<String>) -> (r: Vec<String>)
    ensures
        texts(r@) == extended(texts(vec@), *elem),
{
    let mut result = copy_strings(vec);
    match elem {
        Some(e) => {
            result.push(e.clone());
            assert(texts(result@) =~= texts(vec@).push(e@));
        },
        None => {},
    }
    result
}

/// The mathematical shape of a physical stream.
pub struct StreamModel {
    pub name_parts: Seq<Seq<char>>,
    pub fields: BitFieldModel,
    pub elements_per_transfer: nat,
    pub dimensionality: nat,
    pub dir: Dir,
    pub complexity: Seq<usize>,
}

/// The model of a physical stream.
pub open spec fn stream_model(s: Stream) -> StreamModel {
    StreamModel {
        name_parts: texts(s.name_parts@),
        fields: bf_model(s.fields),
        elements_per_transfer: s.elements_per_transfer as nat,
        dimensionality: s.dimensionality as nat,
        dir: s.dir,
        complexity: s.complexity@,
    }
}

/// The models of a sequence of physical streams.
pub open spec fn stream_models(s: Seq<Stream>) -> Seq<StreamModel> {
    s.map_values(|x: Stream| stream_model(x))
}

/// The streams with elements-per-transfer and complexity of the first one
/// set from the parameters: elements default to 1, complexity to level 0.
pub open spec fn with_params(streams: Seq<StreamModel>, p: RiverParameters) -> Seq<StreamModel> {
    if streams.len() == 0 {
        streams
    } else {
        streams.update(0, StreamModel {
            elements_per_transfer: match p.elements { Some(n) => n as nat, None => 1 },
            complexity: match p.complexity { Some(c) => seq![c], None => seq![0usize] },
            ..streams[0]
        })
    }
}

/// The streams one dimension deeper.
pub open spec fn deeper(streams: Seq<StreamModel>) -> Seq<StreamModel> {
    streams.map_values(|s: StreamModel| StreamModel { dimensionality: s.dimensionality + 1, ..s })
}

/// The streams flowing the other way.
pub open spec fn flipped(streams: Seq<StreamModel>) -> Seq<StreamModel> {
    streams.map_values(|s: StreamModel| StreamModel { dir: dir_flip(s.dir), ..s })
}

/// A new downstream stream of dimension 0 at complexity 0 carrying one
/// element per transfer.
pub open spec fn plain_stream(parts: Seq<Seq<char>>, fields: BitFieldModel) -> StreamModel {
    StreamModel {
        name_parts: parts,
        fields: fields,
        elements_per_transfer: 1,
        dimensionality: 0,
        dir: Dir::Downstream,
        complexity: seq![0usize],
    }
}

/// The physical streams that a river type maps to, named from `parts`: the
/// stream-creating variants take the streams of their inner type (one
/// dimension deeper for `Dim`, reversed for `Rev`) and set the parameters
/// of the first one; bits and groups form one stream of their own, and a
/// group adds the streams of its members that are not bits.
pub open spec fn river_phys(r: River, parts: Seq<Seq<char>>) -> Seq<StreamModel>
    decreases r,
{
    match r {
        River::Root { identifier, inner, parameters } =>
            with_params(river_phys(*inner, extended(parts, identifier)), parameters),
        River::Dim { identifier, inner, parameters } =>
            with_params(deeper(river_phys(*inner, extended(parts, identifier))), parameters),
        River::Rev { identifier, inner, parameters } =>
            with_params(flipped(river_phys(*inner, extended(parts, identifier))), parameters),
        River::New { identifier, inner, parameters } =>
            with_params(river_phys(*inner, extended(parts, identifier)), parameters),
        River::Bits { width, .. } => seq![plain_stream(
            parts,
            BitFieldModel { identifier: Some(join_underscore(parts)), width: width as nat, children: seq![] },
        )],
        River::Group { inner, .. } => seq![plain_stream(
            parts,
            river_bit_fields(r, Some(join_underscore(parts))).unwrap(),
        )] + member_phys(inner@, parts),
        River::Union { .. } => seq![],
    }
}

/// The number of elements per transfer that parameters give, one where
/// they give none.
pub open spec fn elements_of(p: RiverParameters) -> nat {
    match p.elements {
        Some(n) => n as nat,
        None => 1,
    }
}

/// A dimension keeps the streams of its inner type, with their fields and
/// directions, one dimension deeper; a reversal keeps them with their fields
/// and dimensionalities, in the other direction. Either way the first
/// stream carries the number of elements per transfer that the parameters
/// give.
pub proof fn lemma_dim_rev_phys(r: River, parts: Seq<Seq<char>>)
    ensures
        match r {
            River::Dim { identifier, inner, parameters } => {
                let base = river_phys(*inner, extended(parts, identifier));
                let res = river_phys(r, parts);
                &&& res.len() == base.len()
                &&& forall|i: int| 0 <= i < res.len() ==> (#[trigger] res[i]).fields == base[i].fields
                    && res[i].dimensionality == base[i].dimensionality + 1 && res[i].dir == base[i].dir
                &&& res.len() > 0 ==> res[0].elements_per_transfer == elements_of(parameters)
            },
            River::Rev { identifier, inner, parameters } => {
                let base = river_phys(*inner, extended(parts, identifier));
                let res = river_phys(r, parts);
                &&& res.len() == base.len()
                &&& forall|i: int| 0 <= i < res.len() ==> (#[trigger] res[i]).fields == base[i].fields
                    && res[i].dimensionality == base[i].dimensionality && res[i].dir == dir_flip(base[i].dir)
                &&& res.len() > 0 ==> res[0].elements_per_transfer == elements_of(parameters)
            },
            _ => true,
        },
{
    match r {
        River::Dim { identifier, inner, parameters } => {
            let base = river_phys(*inner, extended(parts, identifier));
            assert(deeper(base).len() == base.len());
        },
        River::Rev { identifier, inner, parameters } => {
            let base = river_phys(*inner, extended(parts, identifier));
            assert(flipped(base).len() == base.len());
        },
        _ => {},
    }
}

/// The streams of the members of a group that are not bits, in order.
pub open spec fn member_phys(s: Seq<River>, parts: Seq<Seq<char>>) -> Seq<StreamModel>
    decreases s,
{
    if s.len() == 0 {
        seq![]
    } else {
        member_phys(s.drop_last(), parts) + match s.last() {
            River::Bits { .. } => seq![],
            f => river_phys(f, extended(parts, river_identifier(f))),
        }
    }
}

/// Whether a river type maps to physical streams: no union is met on the
/// way (members of groups that are bits aside).
pub open spec fn has_phys(r: River) -> bool
    decreases r,
{
    match r {
        River::Root { inner, .. } => has_phys(*inner),
        River::Dim { inner, .. } => has_phys(*inner),
        River::Rev { inner, .. } => has_phys(*inner),
        River::New { inner, .. } => has_phys(*inner),
        River::Bits { .. } => true,
        River::Group { inner, .. } => members_have_phys(inner@),
        River::Union { .. } => false,
    }
}

/// Whether every member of a group that is not bits maps to streams.
pub open spec fn members_have_phys(s: Seq<River>) -> bool
    decreases s,
{
    if s.len() == 0 {
        true
    } else {
        members_have_phys(s.drop_last()) && match s.last() {
            River::Bits { .. } => true,
            f => has_phys(f),
        }
    }
}

/// The largest number of `Dim` types met on a way down a river type.
pub open spec fn dim_nesting(r: River) -> nat
    decreases r,
{
    match r {
        River::Root { inner, .. } => dim_nesting(*inner),
        River::Dim { inner, .. } => dim_nesting(*inner) + 1,
        River::Rev { inner, .. } => dim_nesting(*inner),
        River::New { inner, .. } => dim_nesting(*inner),
        River::Group { inner, .. } => members_dim_nesting(inner@),
        _ => 0,
    }
}

/// The largest dim nesting among the members of a group.
pub open spec fn members_dim_nesting(s: Seq<River>) -> nat
    decreases s,
{
    if s.len() == 0 {
        0
    } else {
        let m = members_dim_nesting(s.drop_last());
        let d = dim_nesting(s.last());
        if d > m { d } else { m }
    }
}

/// Apply elements-per-transfer and complexity from `params` to the first
/// stream in a vector of streams.
fn apply_params_to_first(streams: &mut Vec<Stream>, params: &RiverParameters)
    ensures
        stream_models(final(streams)@) == with_params(stream_models(old(streams)@), *params),
        final(streams)@.len() == old(streams)@.len(),
        forall|i: int| 0 <= i < final(streams)@.len() ==>
            #[trigger] final(streams)@[i].dimensionality == old(streams)@[i].dimensionality,
{
    if streams.len() > 0 {
        let ghost before = streams@;
        let first = streams.remove(0);
        let ept: usize = match params.elements { Some(n) => n, None => 1 };
        let complexity = match params.complexity {
            Some(c) => Complexity::new_major(c),
            None => Complexity::default_level(),
        };
        let updated = Stream {
            name_parts: first.name_parts,
            fields: first.fields,
            elements_per_transfer: ept,
            dimensionality: first.dimensionality,
            dir: first.dir,
            complexity: complexity,
        };
        streams.insert(0, updated);
        assert(stream_models(streams@) =~= with_params(stream_models(before), *params));
    }
}

/// Moves every stream one dimension deeper.
fn deepen(streams: Vec<Stream>, Ghost(bound): Ghost<nat>) -> (r: Vec<Stream>)
    requires
        forall|i: int| 0 <= i < streams@.len() ==> #[trigger] streams@[i].dimensionality < bound,
        bound <= usize::MAX,
    ensures
        stream_models(r@) == deeper(stream_models(streams@)),
        r@.len() == streams@.len(),
        forall|i: int| 0 <= i < r@.len() ==> #[trigger] r@[i].dimensionality <= bound,
{
    let mut src = streams;
    let mut out: Vec<Stream> = Vec::new();
    let ghost orig = src@;
    while src.len() > 0
        invariant
            out@.len() + src@.len() == orig.len(),
            src@ == orig.subrange(out@.len() as int, orig.len() as int),
            forall|i: int| 0 <= i < orig.len() ==> #[trigger] orig[i].dimensionality < bound,
            bound <= usize::MAX,
            stream_models(out@) == deeper(stream_models(orig)).take(out@.len() as int),
            forall|i: int| 0 <= i < out@.len() ==> #[trigger] out@[i].dimensionality <= bound,
        decreases src@.len(),
    {
        let s = src.remove(0);
        assert(s == orig[out@.len() as int]);
        let ghost before = out@;
        out.push(Stream {
            name_parts: s.name_parts,
            fields: s.fields,
            elements_per_transfer: s.elements_per_transfer,
            dimensionality: s.dimensionality + 1,
            dir: s.dir,
            complexity: s.complexity,
        });
        assert(stream_models(out@) =~= deeper(stream_models(orig)).take(out@.len() as int));
    }
    assert(deeper(stream_models(orig)).take(orig.len() as int) =~= deeper(stream_models(orig)));
    out
}

/// Reverses the direction of every stream.
fn flip_all(streams: Vec<Stream>) -> (r: Vec<Stream>)
    ensures
        stream_models(r@) == flipped(stream_models(streams@)),
        r@.len() == streams@.len(),
        forall|i: int| 0 <= i < r@.len() ==> #[trigger] r@[i].dimensionality == streams@[i].dimensionality,
{
    let mut src = streams;
    let mut out: Vec<Stream> = Vec::new();
    let ghost orig = src@;
    while src.len() > 0
        invariant
            out@.len() + src@.len() == orig.len(),
            src@ == orig.subrange(out@.len() as int, orig.len() as int),
            stream_models(out@) == flipped(stream_models(orig)).take(out@.len() as int),
            forall|i: int| 0 <= i < out@.len() ==> #[trigger] out@[i].dimensionality == orig[i].dimensionality,
        decreases src@.len(),
    {
        let s = src.remove(0);
        assert(s == orig[out@.len() as int]);
        out.push(Stream {
            name_parts: s.name_parts,
            fields: s.fields,
            elements_per_transfer: s.elements_per_transfer,
            dimensionality: s.dimensionality,
            dir: s.dir.reversed(),
            complexity: s.complexity,
        });
        assert(stream_models(out@) =~= flipped(stream_models(orig)).take(out@.len() as int));
    }
    assert(flipped(stream_models(orig)).take(orig.len() as int) =~= flipped(stream_models(orig)));
    out
}

/// A field name after a prefix and an underscore, when a prefix is given.
fn prefixed_name(prefix: Option<String>, suffix: String) -> (s: String)
    ensures
        s@ == prefixed(opt_view(prefix), suffix@),
{
    proof { reveal_strlit("_"); }
    match prefix {
        Some(p) => {
            let mut p = p;
            p.append("_");
            p.append(suffix.as_str());
            p
        },
        None => suffix,
    }
}

impl River {
    /// Return the identifier of the River.
    pub fn identifier(&self) -> (r: Option<String>)
        ensures
            opt_view(r) == opt_view(river_identifier(*self)),
    {
        match self {
            River::Bits { identifier, .. } => copy_opt_string(identifier),
            River::Group { identifier, .. } => copy_opt_string(identifier),
            River::Union { identifier, .. } => copy_opt_string(identifier),
            River::Dim { identifier, .. } => copy_opt_string(identifier),
            River::Rev { identifier, .. } => copy_opt_string(identifier),
            River::New { identifier, .. } => copy_opt_string(identifier),
            River::Root { identifier, .. } => copy_opt_string(identifier),
        }
    }

    /// Returns the combined width of the river types: bits count, groups add
    /// up, unions take their widest member, stream-creating types count 0.
    #[verifier::loop_isolation(false)]
    pub fn width(&self) -> (w: usize)
        requires
            river_width(*self) <= usize::MAX,
        ensures
            w == river_width(*self),
        decreases *self,
    {
        match self {
            River::Bits { width, .. } => *width,
            River::Group { inner, .. } => {
                let mut sum: usize = 0;
                let mut i: usize = 0;
                while i < inner.len()
                    invariant
                        i <= inner@.len(),
                        sum == rivers_width_sum(inner@.take(i as int)),
                        rivers_width_sum(inner@) <= usize::MAX,
                    decreases inner@.len() - i,
                {
                    proof {
                        lemma_width_sum_prefix(inner@, i + 1);
                        assert(inner@.take(i + 1).drop_last() =~= inner@.take(i as int));
                    }
                    let w = inner[i].width();
                    sum = sum + w;
                    i = i + 1;
                }
                assert(inner@.take(inner@.len() as int) =~= inner@);
                sum
            },
            River::Union { inner, .. } => {
                let mut m: usize = 0;
                let mut i: usize = 0;
                while i < inner.len()
                    invariant
                        i <= inner@.len(),
                        m == rivers_width_max(inner@.take(i as int)),
                        rivers_width_max(inner@) <= usize::MAX,
                    decreases inner@.len() - i,
                {
                    proof {
                        lemma_width_max_bound(inner@, i as int);
                        assert(inner@.take(i + 1).drop_last() =~= inner@.take(i as int));
                    }
                    let w = inner[i].width();
                    if w > m {
                        m = w;
                    }
                    i = i + 1;
                }
                assert(inner@.take(inner@.len() as int) =~= inner@);
                m
            },
            _ => 0,
        }
    }

    /// Obtain sub-element bit fields resulting from the river type's immediate corresponding
    /// physical stream only. Ignores potentially nested physical streams.
    /// 'prefix' is used to prefix the bit fields.
    #[verifier::loop_isolation(false)]
    pub fn bit_fields(&self, prefix: Option<String>) -> (r: Option<BitField>)
        ensures
            r is Some == river_bit_fields(*self, opt_view(prefix)) is Some,
            r matches Some(b) ==> river_bit_fields(*self, opt_view(prefix)) == Some(bf_model(b)),
        decreases *self,
    {
        match self {
            River::Group { identifier, inner } => {
                let id = prefixed_name(prefix, id_or_data_string(identifier));
                let mut children: Vec<BitField> = Vec::new();
                let mut i: usize = 0;
                while i < inner.len()
                    invariant
                        i <= inner@.len(),
                        bf_models(children@) == river_child_fields(inner@.take(i as int)),
                    decreases inner@.len() - i,
                {
                    let cb = inner[i].bit_fields(None);
                    proof {
                        assert(inner@.take(i + 1).drop_last() =~= inner@.take(i as int));
                        assert(inner@.take(i + 1).last() == inner@[i as int]);
                    }
                    match cb {
                        Some(b) => {
                            let ghost before = children@;
                            children.push(b);
                            assert(children@.drop_last() =~= before);
                        },
                        None => {},
                    }
                    i = i + 1;
                }
                assert(inner@.take(inner@.len() as int) =~= inner@);
                Some(BitField { identifier: Some(id), width: 0, children })
            },
            River::Bits { identifier, width } => Some(BitField {
                identifier: Some(prefixed_name(prefix, id_or_data_string(identifier))),
                width: *width,
                children: vec![],
            }),
            _ => None,
        }
    }

    /// The physical streams this river type maps to, named after
    /// `name_parts` extended with the identifiers met on the way down.
    #[verifier::loop_isolation(false)]
    pub fn as_phys(&self, name_parts: Vec<String>) -> (r: Vec<Stream>)
        requires
            has_phys(*self),
            dim_nesting(*self) <= usize::MAX,
        ensures
            stream_models(r@) == river_phys(*self, texts(name_parts@)),
            forall|i: int| 0 <= i < r@.len() ==> #[trigger] r@[i].dimensionality <= dim_nesting(*self),
        decreases *self,
    {
        match self {
            River::Root { identifier, inner, parameters } => {
                let mut result = inner.as_phys(extend_some(&name_parts, identifier));
                apply_params_to_first(&mut result, parameters);
                result
            },
            River::Dim { identifier, inner, parameters } => {
                let result = inner.as_phys(extend_some(&name_parts, identifier));
                let mut result = deepen(result, Ghost(dim_nesting(*self)));
                apply_params_to_first(&mut result, parameters);
                result
            },
            River::Rev { identifier, inner, parameters } => {
                let result = inner.as_phys(extend_some(&name_parts, identifier));
                let mut result = flip_all(result);
                apply_params_to_first(&mut result, parameters);
                result
            },
            River::New { identifier, inner, parameters } => {
                let mut result = inner.as_phys(extend_some(&name_parts, identifier));
                apply_params_to_first(&mut result, parameters);
                result
            },
            River::Bits { width, .. } => {
                let id = join_with_underscore(&name_parts);
                let new_stream = Stream {
                    name_parts: copy_strings(&name_parts),
                    fields: BitField { identifier: Some(id), width: *width, children: vec![] },
                    elements_per_transfer: 1,
                    dir: Dir::Downstream,
                    dimensionality: 0,
                    complexity: Complexity::default_level(),
                };
                let r = vec![new_stream];
                assert(stream_models(r@) =~= river_phys(*self, texts(name_parts@)));
                r
            },
            River::Group { inner, .. } => {
                let mut result: Vec<Stream> = Vec::new();
                let joined = join_with_underscore(&name_parts);
                let bit_fields = self.bit_fields(Some(joined));
                match bit_fields {
                    Some(b) => {
                        result.push(Stream {
                            name_parts: copy_strings(&name_parts),
                            fields: b,
                            elements_per_transfer: 1,
                            dir: Dir::Downstream,
                            dimensionality: 0,
                            complexity: Complexity::default_level(),
                        });
                    },
                    None => {},
                }
                let ghost parts = texts(name_parts@);
                assert(stream_models(result@) =~= seq![plain_stream(
                    parts,
                    river_bit_fields(*self, Some(join_underscore(parts))).unwrap(),
                )]);
                let mut i: usize = 0;
                while i < inner.len()
                    invariant
                        i <= inner@.len(),
                        stream_models(result@) == seq![plain_stream(
                            parts,
                            river_bit_fields(*self, Some(join_underscore(parts))).unwrap(),
                        )] + member_phys(inner@.take(i as int), parts),
                        forall|k: int| 0 <= k < result@.len() ==> #[trigger] result@[k].dimensionality <= dim_nesting(*self),
                    decreases inner@.len() - i,
                {
                    proof {
                        assert(inner@.take(i + 1).drop_last() =~= inner@.take(i as int));
                        assert(inner@.take(i + 1).last() == inner@[i as int]);
                        lemma_members_prefix(inner@, i as int);
                    }
                    let field = &inner[i];
                    match field {
                        River::Bits { .. } => {},
                        _ => {
                            let more = field.as_phys(extend_some(&name_parts, &field.identifier()));
                            let ghost before = result@;
                            let mut more = more;
                            result.append(&mut more);
                            assert(stream_models(result@) =~= stream_models(before) + river_phys(
                                *field,
                                extended(parts, river_identifier(*field)),
                            ));
                        },
                    }
                    i = i + 1;
                }
                assert(inner@.take(inner@.len() as int) =~= inner@);
                result
            },
            River::Union { .. } => {
                proof { assert(false); }
                Vec::new()
            },
        }
    }
}

} // verus!
