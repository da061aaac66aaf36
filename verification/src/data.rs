//! Data types written as text, `a: Struct<Prim<8>, Seq<Prim<4>>>`, and
//! river types, `Root<Group<Bits<4>, Bits<8>>, 8, 2, 1>`, with their
//! grammars.

use vstd::prelude::*;
use crate::phys::opt_view;
use crate::river::{River, RiverParameters};
use crate::scan::{
    at_tag, char_at, has_tag, number_at, run_end, scan_number, scan_run, CharClass, ParseError,
};
use crate::text::{chars_of, string_of};
use vstd::string::StrSliceExecFns;

verus! {

/// A data type, optionally labelled with an identifier.
#[derive(Debug, PartialEq)]
pub enum Data {
    /// No data.
    Empty,
    /// A primitive of `width` bits.
    Prim { identifier: Option<String>, width: usize },
    /// All children at once.
    Struct { identifier: Option<String>, children: Vec<Data> },
    /// `width` copies of a child.
    Tuple { identifier: Option<String>, child: Box<Data>, width: usize },
    /// A sequence of a child.
    Sequence { identifier: Option<String>, child: Box<Data> },
    /// One of the children at a time.
    Variant { identifier: Option<String>, children: Vec<Data> },
}

/// The mathematical shape of a data type.
pub enum DataModel {
    Empty,
    Prim(Option<Seq<char>>, nat),
    Struct(Option<Seq<char>>, Seq<DataModel>),
    Tuple(Option<Seq<char>>, Box<DataModel>, nat),
    Sequence(Option<Seq<char>>, Box<DataModel>),
    Variant(Option<Seq<char>>, Seq<DataModel>),
}

/// The shape of a data type.
pub open spec fn data_model(d: Data) -> DataModel
    decreases d,
{
    match d {
        Data::Empty => DataModel::Empty,
        Data::Prim { identifier, width } => DataModel::Prim(opt_view(identifier), width as nat),
        Data::Struct { identifier, children } => DataModel::Struct(opt_view(identifier), data_models(children@)),
        Data::Tuple { identifier, child, width } => DataModel::Tuple(opt_view(identifier), Box::new(data_model(*child)), width as nat),
        Data::Sequence { identifier, child } => DataModel::Sequence(opt_view(identifier), Box::new(data_model(*child))),
        Data::Variant { identifier, children } => DataModel::Variant(opt_view(identifier), data_models(children@)),
    }
}

/// The shapes of data types.
pub open spec fn data_models(s: Seq<Data>) -> Seq<DataModel>
    decreases s,
{
    if s.len() == 0 {
        Seq::empty()
    } else {
        data_models(s.subrange(0, s.len() - 1)).push(data_model(s.last()))
    }
}

impl View for Data {
    type V = DataModel;

    open spec fn view(&self) -> DataModel {
        data_model(*self)
    }
}

proof fn lemma_data_models_push(s: Seq<Data>, x: Data)
    ensures
        data_models(s.push(x)) == data_models(s).push(data_model(x)),
{
    assert(s.push(x).subrange(0, s.len() as int) =~= s);
}

// ---------------------------------------------------------------------
// The grammar.

/// The character `c` with optional spaces and tabs around it: the position
/// after them.
pub open spec fn p_space_opt(s: Seq<char>, i: int, c: char) -> Option<int> {
    let j = run_end(s, i, CharClass::Space);
    if char_at(s, j, c) { Some(run_end(s, j + 1, CharClass::Space)) } else { None }
}

/// An optional label: an identifier of letters, digits and underscores and
/// a colon; none, at the same position, when either is missing.
pub open spec fn p_label(s: Seq<char>, i: int) -> (Option<Seq<char>>, int) {
    let j = run_end(s, i, CharClass::Ident);
    if j > i {
        match p_space_opt(s, j, ':') {
            Some(k) => (Some(s.subrange(i, j)), k),
            None => (None, i),
        }
    } else {
        (None, i)
    }
}

/// The head of a type: an optional label, the word, and `<`.
pub open spec fn p_head(s: Seq<char>, i: int, word: Seq<char>) -> Option<(Option<Seq<char>>, int)> {
    let (id, j) = p_label(s, i);
    if has_tag(s, j, word) {
        match p_space_opt(s, j + word.len(), '<') {
            Some(k) => Some((id, k)),
            None => None,
        }
    } else {
        None
    }
}

/// A number that fits in a `usize`.
pub open spec fn p_usize(s: Seq<char>, i: int) -> Option<(nat, int)> {
    match number_at(s, i) {
        Some((v, j)) => if v <= usize::MAX { Some((v, j)) } else { None },
        None => None,
    }
}

/// `Empty`.
pub open spec fn p_empty(s: Seq<char>, i: int) -> Option<(DataModel, int)> {
    if has_tag(s, i, "Empty"@) { Some((DataModel::Empty, i + 5)) } else { None }
}

/// `Prim<` and a number of bits, then `>`.
pub open spec fn p_prim(s: Seq<char>, i: int) -> Option<(DataModel, int)> {
    match p_head(s, i, "Prim"@) {
        None => None,
        Some((id, j)) => match p_usize(s, j) {
            None => None,
            Some((w, k)) => match p_space_opt(s, k, '>') {
                None => None,
                Some(e) => Some((DataModel::Prim(id, w), e)),
            },
        },
    }
}

/// A data type: a variant, a sequence, a tuple, a struct, a primitive or
/// empty, tried in that order.
pub open spec fn p_data(s: Seq<char>, i: int) -> Option<(DataModel, int)>
    decreases s.len() - i, 3int,
{
    match p_compound(s, i, 0) {
        Some(r) => Some(r),
        None => match p_compound(s, i, 1) {
            Some(r) => Some(r),
            None => match p_compound(s, i, 2) {
                Some(r) => Some(r),
                None => match p_compound(s, i, 3) {
                    Some(r) => Some(r),
                    None => match p_prim(s, i) {
                        Some(r) => Some(r),
                        None => p_empty(s, i),
                    },
                },
            },
        },
    }
}

/// The word of a compound type: 0 variant, 1 sequence, 2 tuple, 3 struct.
pub open spec fn compound_word(kind: int) -> Seq<char> {
    if kind == 0 { "Variant"@ } else if kind == 1 { "Seq"@ } else if kind == 2 { "Tuple"@ } else { "Struct"@ }
}

/// A variant, a sequence, a tuple or a struct.
pub open spec fn p_compound(s: Seq<char>, i: int, kind: int) -> Option<(DataModel, int)>
    decreases s.len() - i, 2int,
{
    match p_head(s, i, compound_word(kind)) {
        None => None,
        Some((id, j)) => if i < j <= s.len() {
            let inner = if kind == 0 || kind == 3 {
                match p_data_list(s, j) {
                    Some((l, k)) => Some((if kind == 0 { DataModel::Variant(id, l) } else { DataModel::Struct(id, l) }, k)),
                    None => None,
                }
            } else if kind == 1 {
                match p_data(s, j) {
                    Some((d, k)) => Some((DataModel::Sequence(id, Box::new(d)), k)),
                    None => None,
                }
            } else {
                match p_data(s, j) {
                    Some((d, k)) => match p_space_opt(s, k, ',') {
                        Some(k2) => match p_usize(s, k2) {
                            Some((w, k3)) => Some((DataModel::Tuple(id, Box::new(d), w), k3)),
                            None => None,
                        },
                        None => None,
                    },
                    None => None,
                }
            };
            match inner {
                Some((m, k)) => match p_space_opt(s, k, '>') {
                    Some(e) => Some((m, e)),
                    None => None,
                },
                None => None,
            }
        } else {
            None
        },
    }
}

/// More data types, each after a comma with optional spaces around it.
pub open spec fn p_data_more(s: Seq<char>, i: int, acc: Seq<DataModel>) -> (Seq<DataModel>, int)
    decreases s.len() - i, 1int,
{
    match p_space_opt(s, i, ',') {
        None => (acc, i),
        Some(j) => if i < j <= s.len() {
            match p_data(s, j) {
                None => (acc, i),
                Some((d, k)) => if j < k <= s.len() { p_data_more(s, k, acc.push(d)) } else { (acc, i) },
            }
        } else {
            (acc, i)
        },
    }
}

/// One or more data types separated by commas.
pub open spec fn p_data_list(s: Seq<char>, i: int) -> Option<(Seq<DataModel>, int)>
    decreases s.len() - i, 4int,
{
    match p_data(s, i) {
        None => None,
        Some((d, j)) => if i < j <= s.len() { Some(p_data_more(s, j, seq![d])) } else { None },
    }
}

/// The parameters of a river type: a number of elements, then optionally
/// a complexity and a number of user bits, each after an optional comma.
pub open spec fn p_river_parameters(s: Seq<char>, i: int) -> Option<(RiverParameters, int)> {
    match p_usize(s, i) {
        None => None,
        Some((e, j)) => {
            let j2 = match p_space_opt(s, j, ',') { Some(x) => x, None => j };
            let (c, j3) = match p_usize(s, j2) { Some((v, x)) => (Some(v as usize), x), None => (None, j2) };
            let j4 = match p_space_opt(s, j3, ',') { Some(x) => x, None => j3 };
            let (u, j5) = match p_usize(s, j4) { Some((v, x)) => (Some(v as usize), x), None => (None, j4) };
            Some((RiverParameters { elements: Some(e as usize), complexity: c, userbits: u }, j5))
        },
    }
}

// ---------------------------------------------------------------------
// Readers of the rules, by position.

fn char_is(cs: &Vec<char>, i: usize, c: char) -> (b: bool)
    ensures
        b == char_at(cs@, i as int, c),
{
    i < cs.len() && cs[i] == c
}

fn space_opt_at(cs: &Vec<char>, i: usize, c: char) -> (r: Option<usize>)
    requires
        i <= cs@.len(),
    ensures
        r is Some <==> p_space_opt(cs@, i as int, c) is Some,
        r matches Some(k) ==> p_space_opt(cs@, i as int, c) == Some(k as int) && i < k <= cs@.len(),
{
    assert(cs@.len() == cs.len());
    let j = scan_run(cs, i, CharClass::Space);
    if char_is(cs, j, c) {
        Some(scan_run(cs, j + 1, CharClass::Space))
    } else {
        None
    }
}

fn text_of(cs: &Vec<char>, a: usize, b: usize) -> (t: String)
    requires
        a <= b <= cs@.len(),
    ensures
        t@ == cs@.subrange(a as int, b as int),
{
    let mut v: Vec<char> = Vec::new();
    let mut k: usize = a;
    while k < b
        invariant
            a <= k <= b <= cs@.len(),
            v@ == cs@.subrange(a as int, k as int),
        decreases b - k,
    {
        v.push(cs[k]);
        k = k + 1;
        assert(v@ =~= cs@.subrange(a as int, k as int));
    }
    string_of(v.as_slice())
}

fn label_at(cs: &Vec<char>, i: usize) -> (r: (Option<String>, usize))
    requires
        i <= cs@.len(),
    ensures
        p_label(cs@, i as int) == (opt_view(r.0), r.1 as int),
        i <= r.1 <= cs@.len(),
{
    let j = scan_run(cs, i, CharClass::Ident);
    if j > i {
        match space_opt_at(cs, j, ':') {
            Some(k) => (Some(text_of(cs, i, j)), k),
            None => (None, i),
        }
    } else {
        (None, i)
    }
}

fn head_at(cs: &Vec<char>, i: usize, word: &str) -> (r: Option<(Option<String>, usize)>)
    requires
        i <= cs@.len(),
    ensures
        r is Some <==> p_head(cs@, i as int, word@) is Some,
        r matches Some((id, k)) ==> p_head(cs@, i as int, word@) == Some((opt_view(id), k as int))
            && i < k <= cs@.len(),
{
    assert(cs@.len() == cs.len());
    let (id, j) = label_at(cs, i);
    if at_tag(cs, j, word) {
        match space_opt_at(cs, j + word.unicode_len(), '<') {
            Some(k) => Some((id, k)),
            None => None,
        }
    } else {
        None
    }
}

fn usize_at(cs: &Vec<char>, i: usize) -> (r: Option<(usize, usize)>)
    requires
        i <= cs@.len(),
    ensures
        r is Some <==> p_usize(cs@, i as int) is Some,
        r matches Some((v, k)) ==> p_usize(cs@, i as int) == Some((v as nat, k as int)) && i < k <= cs@.len(),
{
    scan_number(cs, i)
}

fn empty_at(cs: &Vec<char>, i: usize) -> (r: Option<(Data, usize)>)
    requires
        i <= cs@.len(),
    ensures
        r is Some <==> p_empty(cs@, i as int) is Some,
        r matches Some((d, k)) ==> p_empty(cs@, i as int) == Some((d@, k as int)) && i < k <= cs@.len(),
{
    proof { reveal_strlit("Empty"); }
    assert(cs@.len() == cs.len());
    if at_tag(cs, i, "Empty") { Some((Data::Empty, i + 5)) } else { None }
}

fn prim_at(cs: &Vec<char>, i: usize) -> (r: Option<(Data, usize)>)
    requires
        i <= cs@.len(),
    ensures
        r is Some <==> p_prim(cs@, i as int) is Some,
        r matches Some((d, k)) ==> p_prim(cs@, i as int) == Some((d@, k as int)) && i < k <= cs@.len(),
{
    let (id, j) = match head_at(cs, i, "Prim") {
        None => return None,
        Some(x) => x,
    };
    let (w, k) = match usize_at(cs, j) {
        None => return None,
        Some(x) => x,
    };
    match space_opt_at(cs, k, '>') {
        None => None,
        Some(e) => Some((Data::Prim { identifier: id, width: w }, e)),
    }
}

fn data_at(cs: &Vec<char>, i: usize) -> (r: Option<(Data, usize)>)
    requires
        i <= cs@.len(),
    ensures
        r is Some <==> p_data(cs@, i as int) is Some,
        r matches Some((d, k)) ==> p_data(cs@, i as int) == Some((d@, k as int)) && i < k <= cs@.len(),
    decreases cs@.len() - i, 3int,
{
    match compound_at(cs, i, 0) {
        Some(r) => return Some(r),
        None => {},
    }
    match compound_at(cs, i, 1) {
        Some(r) => return Some(r),
        None => {},
    }
    match compound_at(cs, i, 2) {
        Some(r) => return Some(r),
        None => {},
    }
    match compound_at(cs, i, 3) {
        Some(r) => return Some(r),
        None => {},
    }
    match prim_at(cs, i) {
        Some(r) => return Some(r),
        None => {},
    }
    empty_at(cs, i)
}

fn compound_at(cs: &Vec<char>, i: usize, kind: usize) -> (r: Option<(Data, usize)>)
    requires
        i <= cs@.len(),
        kind < 4,
    ensures
        r is Some <==> p_compound(cs@, i as int, kind as int) is Some,
        r matches Some((d, k)) ==> p_compound(cs@, i as int, kind as int) == Some((d@, k as int)) && i < k <= cs@.len(),
    decreases cs@.len() - i, 2int,
{
    let word = if kind == 0 { "Variant" } else if kind == 1 { "Seq" } else if kind == 2 { "Tuple" } else { "Struct" };
    assert(word@ == compound_word(kind as int));
    let (id, j) = match head_at(cs, i, word) {
        None => return None,
        Some(x) => x,
    };
    let (d, k) = if kind == 0 || kind == 3 {
        match data_list_at(cs, j) {
            Some((l, k)) => if kind == 0 {
                (Data::Variant { identifier: id, children: l }, k)
            } else {
                (Data::Struct { identifier: id, children: l }, k)
            },
            None => return None,
        }
    } else if kind == 1 {
        match data_at(cs, j) {
            Some((c, k)) => (Data::Sequence { identifier: id, child: Box::new(c) }, k),
            None => return None,
        }
    } else {
        match data_at(cs, j) {
            Some((c, k)) => match space_opt_at(cs, k, ',') {
                Some(k2) => match usize_at(cs, k2) {
                    Some((w, k3)) => (Data::Tuple { identifier: id, child: Box::new(c), width: w }, k3),
                    None => return None,
                },
                None => return None,
            },
            None => return None,
        }
    };
    match space_opt_at(cs, k, '>') {
        Some(e) => Some((d, e)),
        None => None,
    }
}

#[verifier::loop_isolation(false)]
fn data_list_at(cs: &Vec<char>, i: usize) -> (r: Option<(Vec<Data>, usize)>)
    requires
        i <= cs@.len(),
    ensures
        r is Some <==> p_data_list(cs@, i as int) is Some,
        r matches Some((l, k)) ==> p_data_list(cs@, i as int) == Some((data_models(l@), k as int)) && i < k <= cs@.len(),
    decreases cs@.len() - i, 4int,
{
    let (d0, j) = match data_at(cs, i) {
        None => return None,
        Some(x) => x,
    };
    let mut acc: Vec<Data> = Vec::new();
    proof { lemma_data_models_push(acc@, d0); }
    acc.push(d0);
    assert(data_models(Seq::<Data>::empty()) =~= Seq::empty());
    assert(data_models(acc@) =~= seq![d0@]);
    let mut k: usize = j;
    while true
        invariant
            i < k <= cs@.len(),
            p_data_list(cs@, i as int) == Some(p_data_more(cs@, k as int, data_models(acc@))),
        decreases cs@.len() - k,
    {
        let c = match space_opt_at(cs, k, ',') {
            None => return Some((acc, k)),
            Some(c) => c,
        };
        match data_at(cs, c) {
            None => return Some((acc, k)),
            Some((d, e)) => {
                proof { lemma_data_models_push(acc@, d); }
                acc.push(d);
                k = e;
            },
        }
    }
    None
}

fn river_parameters_at(cs: &Vec<char>, i: usize) -> (r: Option<(RiverParameters, usize)>)
    requires
        i <= cs@.len(),
    ensures
        r is Some <==> p_river_parameters(cs@, i as int) is Some,
        r matches Some((p, k)) ==> p_river_parameters(cs@, i as int) == Some((p, k as int)) && i < k <= cs@.len(),
{
    let (e, j) = match usize_at(cs, i) {
        None => return None,
        Some(x) => x,
    };
    let j2 = match space_opt_at(cs, j, ',') {
        Some(x) => x,
        None => j,
    };
    let (c, j3) = match usize_at(cs, j2) {
        Some((v, x)) => (Some(v), x),
        None => (None, j2),
    };
    let j4 = match space_opt_at(cs, j3, ',') {
        Some(x) => x,
        None => j3,
    };
    let (u, j5) = match usize_at(cs, j4) {
        Some((v, x)) => (Some(v), x),
        None => (None, j4),
    };
    Some((RiverParameters { elements: Some(e), complexity: c, userbits: u }, j5))
}

// ---------------------------------------------------------------------
// The parsers: each reads a prefix of its input and gives back the rest.

fn rest_of<'a>(input: &'a str, cs: &Vec<char>, k: usize) -> (rest: &'a str)
    requires
        cs@ == input@,
        k <= cs@.len(),
    ensures
        rest@ == input@.subrange(k as int, input@.len() as int),
{
    input.substring_char(k, cs.len())
}

/// Parses `Empty`.
pub fn empty(input: &str) -> (r: Result<(&str, Data), ParseError>)
    ensures
        match p_empty(input@, 0) {
            Some((m, j)) => r matches Ok((rest, d)) && d@ == m && rest@ == input@.subrange(j, input@.len() as int),
            None => r is Err,
        },
{
    let cs = chars_of(input);
    match empty_at(&cs, 0) {
        Some((d, k)) => Ok((rest_of(input, &cs, k), d)),
        None => Err(ParseError),
    }
}

/// Parses a primitive, `Prim<B>`, optionally labelled.
pub fn prim(input: &str) -> (r: Result<(&str, Data), ParseError>)
    ensures
        match p_prim(input@, 0) {
            Some((m, j)) => r matches Ok((rest, d)) && d@ == m && rest@ == input@.subrange(j, input@.len() as int),
            None => r is Err,
        },
{
    let cs = chars_of(input);
    match prim_at(&cs, 0) {
        Some((d, k)) => Ok((rest_of(input, &cs, k), d)),
        None => Err(ParseError),
    }
}

fn compound(input: &str, kind: usize) -> (r: Result<(&str, Data), ParseError>)
    requires
        kind < 4,
    ensures
        match p_compound(input@, 0, kind as int) {
            Some((m, j)) => r matches Ok((rest, d)) && d@ == m && rest@ == input@.subrange(j, input@.len() as int),
            None => r is Err,
        },
{
    let cs = chars_of(input);
    match compound_at(&cs, 0, kind) {
        Some((d, k)) => Ok((rest_of(input, &cs, k), d)),
        None => Err(ParseError),
    }
}

/// Parses a struct, `Struct<T, U, ...>`, optionally labelled.
pub fn struct_type(input: &str) -> (r: Result<(&str, Data), ParseError>)
    ensures
        match p_compound(input@, 0, 3) {
            Some((m, j)) => r matches Ok((rest, d)) && d@ == m && rest@ == input@.subrange(j, input@.len() as int),
            None => r is Err,
        },
{
    compound(input, 3)
}

/// Parses a tuple, `Tuple<T, n>`, optionally labelled.
pub fn tuple(input: &str) -> (r: Result<(&str, Data), ParseError>)
    ensures
        match p_compound(input@, 0, 2) {
            Some((m, j)) => r matches Ok((rest, d)) && d@ == m && rest@ == input@.subrange(j, input@.len() as int),
            None => r is Err,
        },
{
    compound(input, 2)
}

/// Parses a sequence, `Seq<T>`, optionally labelled.
pub fn seq(input: &str) -> (r: Result<(&str, Data), ParseError>)
    ensures
        match p_compound(input@, 0, 1) {
            Some((m, j)) => r matches Ok((rest, d)) && d@ == m && rest@ == input@.subrange(j, input@.len() as int),
            None => r is Err,
        },
{
    compound(input, 1)
}

/// Parses a variant, `Variant<T, U, ...>`, optionally labelled.
pub fn variant(input: &str) -> (r: Result<(&str, Data), ParseError>)
    ensures
        match p_compound(input@, 0, 0) {
            Some((m, j)) => r matches Ok((rest, d)) && d@ == m && rest@ == input@.subrange(j, input@.len() as int),
            None => r is Err,
        },
{
    compound(input, 0)
}

/// Parses a data type.
pub fn data_type(input: &str) -> (r: Result<(&str, Data), ParseError>)
    ensures
        match p_data(input@, 0) {
            Some((m, j)) => r matches Ok((rest, d)) && d@ == m && rest@ == input@.subrange(j, input@.len() as int),
            None => r is Err,
        },
{
    let cs = chars_of(input);
    match data_at(&cs, 0) {
        Some((d, k)) => Ok((rest_of(input, &cs, k), d)),
        None => Err(ParseError),
    }
}

/// Parses the parameters of a river type.
pub fn river_parameters(input: &str) -> (r: Result<(&str, RiverParameters), ParseError>)
    ensures
        match p_river_parameters(input@, 0) {
            Some((p, j)) => r matches Ok((rest, v)) && v == p && rest@ == input@.subrange(j, input@.len() as int),
            None => r is Err,
        },
{
    let cs = chars_of(input);
    match river_parameters_at(&cs, 0) {
        Some((p, k)) => Ok((rest_of(input, &cs, k), p)),
        None => Err(ParseError),
    }
}

// ---------------------------------------------------------------------
// River types.

/// The mathematical shape of a river type.
pub enum RiverModel {
    Bits(Option<Seq<char>>, nat),
    Group(Option<Seq<char>>, Seq<RiverModel>),
    Union(Option<Seq<char>>, Seq<RiverModel>),
    Dim(Option<Seq<char>>, Box<RiverModel>, RiverParameters),
    Rev(Option<Seq<char>>, Box<RiverModel>, RiverParameters),
    New(Option<Seq<char>>, Box<RiverModel>, RiverParameters),
    Root(Option<Seq<char>>, Box<RiverModel>, RiverParameters),
}

/// The shape of a river type.
pub open spec fn river_model(r: River) -> RiverModel
    decreases r,
{
    match r {
        River::Bits { identifier, width } => RiverModel::Bits(opt_view(identifier), width as nat),
        River::Group { identifier, inner } => RiverModel::Group(opt_view(identifier), river_models(inner@)),
        River::Union { identifier, inner } => RiverModel::Union(opt_view(identifier), river_models(inner@)),
        River::Dim { identifier, inner, parameters } => RiverModel::Dim(opt_view(identifier), Box::new(river_model(*inner)), parameters),
        River::Rev { identifier, inner, parameters } => RiverModel::Rev(opt_view(identifier), Box::new(river_model(*inner)), parameters),
        River::New { identifier, inner, parameters } => RiverModel::New(opt_view(identifier), Box::new(river_model(*inner)), parameters),
        River::Root { identifier, inner, parameters } => RiverModel::Root(opt_view(identifier), Box::new(river_model(*inner)), parameters),
    }
}

/// The shapes of river types.
pub open spec fn river_models(s: Seq<River>) -> Seq<RiverModel>
    decreases s,
{
    if s.len() == 0 {
        Seq::empty()
    } else {
        river_models(s.subrange(0, s.len() - 1)).push(river_model(s.last()))
    }
}

proof fn lemma_river_models_push(s: Seq<River>, x: River)
    ensures
        river_models(s.push(x)) == river_models(s).push(river_model(x)),
{
    assert(s.push(x).subrange(0, s.len() as int) =~= s);
}

/// Parameters with nothing chosen.
pub open spec fn no_parameters() -> RiverParameters {
    RiverParameters { elements: None, complexity: None, userbits: None }
}

/// `Bits<` and a number of bits, then `>`.
pub open spec fn p_bits(s: Seq<char>, i: int) -> Option<(RiverModel, int)> {
    match p_head(s, i, "Bits"@) {
        None => None,
        Some((id, j)) => match p_usize(s, j) {
            None => None,
            Some((w, k)) => match p_space_opt(s, k, '>') {
                None => None,
                Some(e) => Some((RiverModel::Bits(id, w), e)),
            },
        },
    }
}

/// The word of a river kind: 0 union, 1 rev, 2 new, 3 dim, 4 group,
/// 5 root.
pub open spec fn river_word(kind: int) -> Seq<char> {
    if kind == 0 { "Union"@ } else if kind == 1 { "Rev"@ } else if kind == 2 { "New"@ }
    else if kind == 3 { "Dim"@ } else if kind == 4 { "Group"@ } else { "Root"@ }
}

/// A river type: a union, rev, new, dim, group, root or bits, tried in
/// that order.
pub open spec fn p_river(s: Seq<char>, i: int) -> Option<(RiverModel, int)>
    decreases s.len() - i, 3int,
{
    match p_river_kind(s, i, 0) {
        Some(r) => Some(r),
        None => match p_river_kind(s, i, 1) {
            Some(r) => Some(r),
            None => match p_river_kind(s, i, 2) {
                Some(r) => Some(r),
                None => match p_river_kind(s, i, 3) {
                    Some(r) => Some(r),
                    None => match p_river_kind(s, i, 4) {
                        Some(r) => Some(r),
                        None => match p_river_kind(s, i, 5) {
                            Some(r) => Some(r),
                            None => p_bits(s, i),
                        },
                    },
                },
            },
        },
    }
}

/// A union or group of river types, or a rev, new, dim or root of one with
/// optional parameters after a comma.
pub open spec fn p_river_kind(s: Seq<char>, i: int, kind: int) -> Option<(RiverModel, int)>
    decreases s.len() - i, 2int,
{
    match p_head(s, i, river_word(kind)) {
        None => None,
        Some((id, j)) => if i < j <= s.len() {
            let inner = if kind == 0 || kind == 4 {
                match p_river_list(s, j) {
                    Some((l, k)) => Some((if kind == 0 { RiverModel::Union(id, l) } else { RiverModel::Group(id, l) }, k)),
                    None => None,
                }
            } else {
                match p_river(s, j) {
                    Some((r, k)) => {
                        let (p, k2) = match p_space_opt(s, k, ',') {
                            Some(c) => match p_river_parameters(s, c) {
                                Some((p, e)) => (p, e),
                                None => (no_parameters(), k),
                            },
                            None => (no_parameters(), k),
                        };
                        let b = Box::new(r);
                        Some((if kind == 1 { RiverModel::Rev(id, b, p) } else if kind == 2 { RiverModel::New(id, b, p) }
                            else if kind == 3 { RiverModel::Dim(id, b, p) } else { RiverModel::Root(id, b, p) }, k2))
                    },
                    None => None,
                }
            };
            match inner {
                Some((m, k)) => match p_space_opt(s, k, '>') {
                    Some(e) => Some((m, e)),
                    None => None,
                },
                None => None,
            }
        } else {
            None
        },
    }
}

/// More river types, each after a comma with optional spaces around it.
pub open spec fn p_river_more(s: Seq<char>, i: int, acc: Seq<RiverModel>) -> (Seq<RiverModel>, int)
    decreases s.len() - i, 1int,
{
    match p_space_opt(s, i, ',') {
        None => (acc, i),
        Some(j) => if i < j <= s.len() {
            match p_river(s, j) {
                None => (acc, i),
                Some((d, k)) => if j < k <= s.len() { p_river_more(s, k, acc.push(d)) } else { (acc, i) },
            }
        } else {
            (acc, i)
        },
    }
}

/// One or more river types separated by commas.
pub open spec fn p_river_list(s: Seq<char>, i: int) -> Option<(Seq<RiverModel>, int)>
    decreases s.len() - i, 4int,
{
    match p_river(s, i) {
        None => None,
        Some((d, j)) => if i < j <= s.len() { Some(p_river_more(s, j, seq![d])) } else { None },
    }
}

fn bits_at(cs: &Vec<char>, i: usize) -> (r: Option<(River, usize)>)
    requires
        i <= cs@.len(),
    ensures
        r is Some <==> p_bits(cs@, i as int) is Some,
        r matches Some((d, k)) ==> p_bits(cs@, i as int) == Some((river_model(d), k as int)) && i < k <= cs@.len(),
{
    let (id, j) = match head_at(cs, i, "Bits") {
        None => return None,
        Some(x) => x,
    };
    let (w, k) = match usize_at(cs, j) {
        None => return None,
        Some(x) => x,
    };
    match space_opt_at(cs, k, '>') {
        None => None,
        Some(e) => Some((River::Bits { identifier: id, width: w }, e)),
    }
}

fn river_at(cs: &Vec<char>, i: usize) -> (r: Option<(River, usize)>)
    requires
        i <= cs@.len(),
    ensures
        r is Some <==> p_river(cs@, i as int) is Some,
        r matches Some((d, k)) ==> p_river(cs@, i as int) == Some((river_model(d), k as int)) && i < k <= cs@.len(),
    decreases cs@.len() - i, 3int,
{
    match river_kind_at(cs, i, 0) {
        Some(r) => return Some(r),
        None => {},
    }
    match river_kind_at(cs, i, 1) {
        Some(r) => return Some(r),
        None => {},
    }
    match river_kind_at(cs, i, 2) {
        Some(r) => return Some(r),
        None => {},
    }
    match river_kind_at(cs, i, 3) {
        Some(r) => return Some(r),
        None => {},
    }
    match river_kind_at(cs, i, 4) {
        Some(r) => return Some(r),
        None => {},
    }
    match river_kind_at(cs, i, 5) {
        Some(r) => return Some(r),
        None => {},
    }
    bits_at(cs, i)
}

fn river_kind_at(cs: &Vec<char>, i: usize, kind: usize) -> (r: Option<(River, usize)>)
    requires
        i <= cs@.len(),
        kind < 6,
    ensures
        r is Some <==> p_river_kind(cs@, i as int, kind as int) is Some,
        r matches Some((d, k)) ==> p_river_kind(cs@, i as int, kind as int) == Some((river_model(d), k as int))
            && i < k <= cs@.len(),
    decreases cs@.len() - i, 2int,
{
    let word = if kind == 0 { "Union" } else if kind == 1 { "Rev" } else if kind == 2 { "New" }
        else if kind == 3 { "Dim" } else if kind == 4 { "Group" } else { "Root" };
    assert(word@ == river_word(kind as int));
    let (id, j) = match head_at(cs, i, word) {
        None => return None,
        Some(x) => x,
    };
    let (d, k) = if kind == 0 || kind == 4 {
        match river_list_at(cs, j) {
            Some((l, k)) => if kind == 0 {
                (River::Union { identifier: id, inner: l }, k)
            } else {
                (River::Group { identifier: id, inner: l }, k)
            },
            None => return None,
        }
    } else {
        match river_at(cs, j) {
            Some((c, k)) => {
                let (p, k2) = match space_opt_at(cs, k, ',') {
                    Some(x) => match river_parameters_at(cs, x) {
                        Some((p, e)) => (p, e),
                        None => (RiverParameters { elements: None, complexity: None, userbits: None }, k),
                    },
                    None => (RiverParameters { elements: None, complexity: None, userbits: None }, k),
                };
                let b = Box::new(c);
                if kind == 1 {
                    (River::Rev { identifier: id, inner: b, parameters: p }, k2)
                } else if kind == 2 {
                    (River::New { identifier: id, inner: b, parameters: p }, k2)
                } else if kind == 3 {
                    (River::Dim { identifier: id, inner: b, parameters: p }, k2)
                } else {
                    (River::Root { identifier: id, inner: b, parameters: p }, k2)
                }
            },
            None => return None,
        }
    };
    match space_opt_at(cs, k, '>') {
        Some(e) => Some((d, e)),
        None => None,
    }
}

#[verifier::loop_isolation(false)]
fn river_list_at(cs: &Vec<char>, i: usize) -> (r: Option<(Vec<River>, usize)>)
    requires
        i <= cs@.len(),
    ensures
        r is Some <==> p_river_list(cs@, i as int) is Some,
        r matches Some((l, k)) ==> p_river_list(cs@, i as int) == Some((river_models(l@), k as int)) && i < k <= cs@.len(),
    decreases cs@.len() - i, 4int,
{
    let (d0, j) = match river_at(cs, i) {
        None => return None,
        Some(x) => x,
    };
    let mut acc: Vec<River> = Vec::new();
    proof { lemma_river_models_push(acc@, d0); }
    acc.push(d0);
    assert(river_models(Seq::<River>::empty()) =~= Seq::empty());
    assert(river_models(acc@) =~= seq![river_model(d0)]);
    let mut k: usize = j;
    loop
        invariant
            i < k <= cs@.len(),
            p_river_list(cs@, i as int) == Some(p_river_more(cs@, k as int, river_models(acc@))),
        decreases cs@.len() - k,
    {
        let c = match space_opt_at(cs, k, ',') {
            None => return Some((acc, k)),
            Some(c) => c,
        };
        match river_at(cs, c) {
            None => return Some((acc, k)),
            Some((d, e)) => {
                proof { lemma_river_models_push(acc@, d); }
                acc.push(d);
                k = e;
            },
        }
    }
}

fn river_kind(input: &str, kind: usize) -> (r: Result<(&str, River), ParseError>)
    requires
        kind < 6,
    ensures
        match p_river_kind(input@, 0, kind as int) {
            Some((m, j)) => r matches Ok((rest, d)) && river_model(d) == m && rest@ == input@.subrange(j, input@.len() as int),
            None => r is Err,
        },
{
    let cs = chars_of(input);
    match river_kind_at(&cs, 0, kind) {
        Some((d, k)) => Ok((rest_of(input, &cs, k), d)),
        None => Err(ParseError),
    }
}

/// Parses `Bits<B>`, optionally labelled.
pub fn bits(input: &str) -> (r: Result<(&str, River), ParseError>)
    ensures
        match p_bits(input@, 0) {
            Some((m, j)) => r matches Ok((rest, d)) && river_model(d) == m && rest@ == input@.subrange(j, input@.len() as int),
            None => r is Err,
        },
{
    let cs = chars_of(input);
    match bits_at(&cs, 0) {
        Some((d, k)) => Ok((rest_of(input, &cs, k), d)),
        None => Err(ParseError),
    }
}

/// Parses `Union<T, U, ...>`, optionally labelled.
pub fn union(input: &str) -> (r: Result<(&str, River), ParseError>)
    ensures
        match p_river_kind(input@, 0, 0) {
            Some((m, j)) => r matches Ok((rest, d)) && river_model(d) == m && rest@ == input@.subrange(j, input@.len() as int),
            None => r is Err,
        },
{
    river_kind(input, 0)
}

/// Parses `Rev<T, parameters>`, optionally labelled.
pub fn rev(input: &str) -> (r: Result<(&str, River), ParseError>)
    ensures
        match p_river_kind(input@, 0, 1) {
            Some((m, j)) => r matches Ok((rest, d)) && river_model(d) == m && rest@ == input@.subrange(j, input@.len() as int),
            None => r is Err,
        },
{
    river_kind(input, 1)
}

/// Parses `New<T, parameters>`, optionally labelled.
pub fn new(input: &str) -> (r: Result<(&str, River), ParseError>)
    ensures
        match p_river_kind(input@, 0, 2) {
            Some((m, j)) => r matches Ok((rest, d)) && river_model(d) == m && rest@ == input@.subrange(j, input@.len() as int),
            None => r is Err,
        },
{
    river_kind(input, 2)
}

/// Parses `Dim<T, parameters>`, optionally labelled.
pub fn dim(input: &str) -> (r: Result<(&str, River), ParseError>)
    ensures
        match p_river_kind(input@, 0, 3) {
            Some((m, j)) => r matches Ok((rest, d)) && river_model(d) == m && rest@ == input@.subrange(j, input@.len() as int),
            None => r is Err,
        },
{
    river_kind(input, 3)
}

/// Parses `Group<T, U, ...>`, optionally labelled.
pub fn group(input: &str) -> (r: Result<(&str, River), ParseError>)
    ensures
        match p_river_kind(input@, 0, 4) {
            Some((m, j)) => r matches Ok((rest, d)) && river_model(d) == m && rest@ == input@.subrange(j, input@.len() as int),
            None => r is Err,
        },
{
    river_kind(input, 4)
}

/// Parses `Root<T, parameters>`, optionally labelled.
pub fn root(input: &str) -> (r: Result<(&str, River), ParseError>)
    ensures
        match p_river_kind(input@, 0, 5) {
            Some((m, j)) => r matches Ok((rest, d)) && river_model(d) == m && rest@ == input@.subrange(j, input@.len() as int),
            None => r is Err,
        },
{
    river_kind(input, 5)
}

/// Parses a river type.
pub fn river_type(input: &str) -> (r: Result<(&str, River), ParseError>)
    ensures
        match p_river(input@, 0) {
            Some((m, j)) => r matches Ok((rest, d)) && river_model(d) == m && rest@ == input@.subrange(j, input@.len() as int),
            None => r is Err,
        },
{
    let cs = chars_of(input);
    match river_at(&cs, 0) {
        Some((d, k)) => Ok((rest_of(input, &cs, k), d)),
        None => Err(ParseError),
    }
}

// ---------------------------------------------------------------------
// Streamlet interface definitions of river types.

/// A streamlet given by the river types of its inputs and outputs.
#[derive(Debug, PartialEq)]
pub struct Streamlet {
    pub identifier: String,
    pub inputs: Vec<River>,
    pub outputs: Vec<River>,
}

/// An identifier: one or more ASCII letters, digits and underscores.
pub open spec fn p_identifier(s: Seq<char>, i: int) -> Option<(Seq<char>, int)> {
    let j = run_end(s, i, CharClass::Ident);
    if j > i { Some((s.subrange(i, j), j)) } else { None }
}

/// One or more line feeds: the position after them.
pub open spec fn p_newlines(s: Seq<char>, i: int) -> Option<int> {
    let j = run_end(s, i, CharClass::Newline);
    if j > i { Some(j) } else { None }
}

/// More river types, each after a single line feed.
pub open spec fn p_river_lines_more(s: Seq<char>, i: int, acc: Seq<RiverModel>) -> (Seq<RiverModel>, int)
    decreases s.len() - i,
{
    if char_at(s, i, '\n') && i + 1 <= s.len() {
        match p_river(s, i + 1) {
            None => (acc, i),
            Some((d, k)) => if i + 1 < k <= s.len() { p_river_lines_more(s, k, acc.push(d)) } else { (acc, i) },
        }
    } else {
        (acc, i)
    }
}

/// One or more river types, one per line.
pub open spec fn p_river_lines(s: Seq<char>, i: int) -> Option<(Seq<RiverModel>, int)> {
    match p_river(s, i) {
        None => None,
        Some((d, j)) => if i < j <= s.len() { Some(p_river_lines_more(s, j, seq![d])) } else { None },
    }
}

/// A streamlet interface definition: an identifier, blank lines, the input
/// types one per line, blank lines, and the output types one per line.
pub open spec fn p_streamlet_definition(s: Seq<char>, i: int) -> Option<(Seq<char>, Seq<RiverModel>, Seq<RiverModel>, int)> {
    match p_identifier(s, i) {
        None => None,
        Some((id, j)) => match p_newlines(s, j) {
            None => None,
            Some(j2) => match p_river_lines(s, j2) {
                None => None,
                Some((ins, j3)) => match p_newlines(s, j3) {
                    None => None,
                    Some(j4) => match p_river_lines(s, j4) {
                        None => None,
                        Some((outs, j5)) => Some((id, ins, outs, j5)),
                    },
                },
            },
        },
    }
}

#[verifier::loop_isolation(false)]
fn river_lines_at(cs: &Vec<char>, i: usize) -> (r: Option<(Vec<River>, usize)>)
    requires
        i <= cs@.len(),
    ensures
        r is Some <==> p_river_lines(cs@, i as int) is Some,
        r matches Some((l, k)) ==> p_river_lines(cs@, i as int) == Some((river_models(l@), k as int)) && i < k <= cs@.len(),
{
    let (d0, j) = match river_at(cs, i) {
        None => return None,
        Some(x) => x,
    };
    let mut acc: Vec<River> = Vec::new();
    proof { lemma_river_models_push(acc@, d0); }
    acc.push(d0);
    assert(river_models(Seq::<River>::empty()) =~= Seq::empty());
    assert(river_models(acc@) =~= seq![river_model(d0)]);
    let mut k: usize = j;
    loop
        invariant
            i < k <= cs@.len(),
            p_river_lines(cs@, i as int) == Some(p_river_lines_more(cs@, k as int, river_models(acc@))),
        decreases cs@.len() - k,
    {
        if k >= cs.len() || !char_is(cs, k, '\n') {
            return Some((acc, k));
        }
        match river_at(cs, k + 1) {
            None => return Some((acc, k)),
            Some((d, e)) => {
                proof { lemma_river_models_push(acc@, d); }
                acc.push(d);
                k = e;
            },
        }
    }
}

/// Parses a streamlet interface definition.
pub fn streamlet_interface_definition(input: &str) -> (r: Result<(&str, Streamlet), ParseError>)
    ensures
        match p_streamlet_definition(input@, 0) {
            Some((id, ins, outs, j)) => r matches Ok((rest, st)) && st.identifier@ == id
                && river_models(st.inputs@) == ins && river_models(st.outputs@) == outs
                && rest@ == input@.subrange(j, input@.len() as int),
            None => r is Err,
        },
{
    let cs = chars_of(input);
    let j = scan_run(&cs, 0, CharClass::Ident);
    if j == 0 {
        return Err(ParseError);
    }
    let identifier = text_of(&cs, 0, j);
    let j2 = scan_run(&cs, j, CharClass::Newline);
    if j2 == j {
        return Err(ParseError);
    }
    let (inputs, j3) = match river_lines_at(&cs, j2) {
        None => return Err(ParseError),
        Some(x) => x,
    };
    let j4 = scan_run(&cs, j3, CharClass::Newline);
    if j4 == j3 {
        return Err(ParseError);
    }
    let (outputs, j5) = match river_lines_at(&cs, j4) {
        None => return Err(ParseError),
        Some(x) => x,
    };
    Ok((rest_of(input, &cs, j5), Streamlet { identifier, inputs, outputs }))
}

} // verus!
