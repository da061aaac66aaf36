//! Physical streams: the five parameters of a physical stream and the
//! signals they give rise to.

use vstd::prelude::*;
use indexmap::IndexMap;
use crate::error::Error;
use crate::phys::{copy_opt_string, opt_view, Complexity};
use crate::text::{chars_of, char_is_alnum, char_is_digit, is_alnum, is_digit, string_of};
use crate::util::{is_log2_ceil, lemma_log2_ceil_exists, lemma_log2_ceil_unique, log2_ceil};

verus! {

#[verifier::external_type_specification]
#[verifier::external_body]
#[verifier::reject_recursive_types(K)]
#[verifier::reject_recursive_types(V)]
#[verifier::reject_recursive_types(S)]
pub struct ExIndexMap<K, V, S>(IndexMap<K, V, S>);

/// A named or unnamed field with its bit count.
pub type FieldEntry = (Option<Seq<char>>, usize);

/// The entries of a field map, in their order.
pub uninterp spec fn field_entries(m: IndexMap<Option<String>, usize>) -> Seq<FieldEntry>;

/// Whether an entry with this key is in the entries.
pub open spec fn has_key(entries: Seq<FieldEntry>, k: Option<Seq<char>>) -> bool {
    exists|i: int| 0 <= i < entries.len() && (#[trigger] entries[i]).0 == k
}

/// `IndexMap::new`: a map without entries.
#[verifier::external_body]
fn field_map_new() -> (m: IndexMap<Option<String>, usize>)
    ensures
        field_entries(m) == Seq::<FieldEntry>::empty(),
{
    IndexMap::new()
}

/// `IndexMap::insert`: a new key goes last; a key already there keeps its
/// place, takes the new value, and the old value is returned.
#[verifier::external_body]
fn field_map_insert(m: &mut IndexMap<Option<String>, usize>, k: Option<String>, v: usize) -> (old_value: Option<usize>)
    ensures
        old_value is None <==> !has_key(field_entries(*old(m)), opt_view(k)),
        old_value is None ==> field_entries(*final(m)) == field_entries(*old(m)).push((opt_view(k), v)),
        old_value matches Some(o) ==> exists|i: int|
            0 <= i < field_entries(*old(m)).len()
            && (#[trigger] field_entries(*old(m))[i]).0 == opt_view(k)
            && field_entries(*old(m))[i].1 == o
            && field_entries(*final(m)) == field_entries(*old(m)).update(i, (opt_view(k), v)),
{
    m.insert(k, v)
}

/// `IndexMap::len`: the number of entries.
#[verifier::external_body]
fn field_map_len(m: &IndexMap<Option<String>, usize>) -> (n: usize)
    ensures
        n == field_entries(*m).len(),
{
    m.len()
}

/// `IndexMap::get_index`: the entry at a position, if there is one.
#[verifier::external_body]
fn field_map_get_index(m: &IndexMap<Option<String>, usize>, i: usize) -> (r: Option<(&Option<String>, &usize)>)
    ensures
        r is Some <==> i < field_entries(*m).len(),
        r is Some ==> opt_view(*r.unwrap().0) == field_entries(*m)[i as int].0,
        r is Some ==> *r.unwrap().1 == field_entries(*m)[i as int].1,
{
    m.get_index(i)
}

/// The entries given to the constructor, by their texts.
pub open spec fn given_fields(s: Seq<(Option<String>, usize)>) -> Seq<FieldEntry> {
    s.map_values(|e: (Option<String>, usize)| (opt_view(e.0), e.1))
}

/// The check of one field: a zero bit count is refused first; an empty
/// name counts as no name; a name may not start with a digit, start or end
/// with an underscore, or hold anything but letters, digits and
/// underscores.
pub open spec fn checked_field(e: FieldEntry) -> Result<FieldEntry, Seq<char>> {
    if e.1 == 0 {
        Err("bit count cannot be zero"@)
    } else {
        match e.0 {
            None => Ok((None, e.1)),
            Some(n) => if n.len() == 0 {
                Ok((None, e.1))
            } else if is_digit(n[0]) {
                Err("name cannot start with a digit"@)
            } else if n[0] == '_' || n[n.len() - 1] == '_' {
                Err("name cannot start or end with an underscore"@)
            } else if !(forall|i: int| 0 <= i < n.len() ==> is_alnum(#[trigger] n[i]) || n[i] == '_') {
                Err("name must consist of letters, numbers, and/or underscores"@)
            } else {
                Ok((Some(n), e.1))
            },
        }
    }
}

/// The checks of all fields, in order: the first refusal, or all checked
/// fields.
pub open spec fn checked_fields(s: Seq<FieldEntry>) -> Result<Seq<FieldEntry>, Seq<char>>
    decreases s.len(),
{
    if s.len() == 0 {
        Ok(seq![])
    } else {
        match checked_fields(s.drop_last()) {
            Err(m) => Err(m),
            Ok(prev) => match checked_field(s.last()) {
                Err(m) => Err(m),
                Ok(e) => Ok(prev.push(e)),
            },
        }
    }
}

/// The code of a character with ASCII upper case folded to lower case.
pub open spec fn fold_code(c: char) -> int {
    if 'A' <= c && c <= 'Z' { c as int + 32 } else { c as int }
}

/// A key with its letters folded to lower case.
pub open spec fn folded_key(k: Option<Seq<char>>) -> Option<Seq<int>> {
    match k {
        Some(n) => Some(n.map_values(|c: char| fold_code(c))),
        None => None,
    }
}

/// Whether two fields share a key, letters compared without regard to case.
pub open spec fn has_duplicate_key(s: Seq<FieldEntry>) -> bool {
    exists|i: int, j: int| 0 <= i < j < s.len() && #[trigger] folded_key(s[i].0) == #[trigger] folded_key(s[j].0)
}

/// The message for fields whose keys repeat.
pub open spec fn duplicate_message() -> Seq<char> {
    "field names must be case-insensitively unique within the set of named fields"@
}

/// The field map made of the given fields: the first field refusal, the
/// refusal of a repeated key, or the checked fields.
pub open spec fn field_map_of(s: Seq<FieldEntry>) -> Result<Seq<FieldEntry>, Seq<char>> {
    match checked_fields(s) {
        Err(m) => Err(m),
        Ok(f) => if has_duplicate_key(f) { Err(duplicate_message()) } else { Ok(f) },
    }
}

/// A physical stream: its element fields, element lanes, dimensionality,
/// complexity and user fields. Bit counts are positive, keys do not repeat
/// and there is at least one lane.
#[derive(Debug)]
pub struct PhysicalStream {
    element: IndexMap<Option<String>, usize>,
    element_lanes: usize,
    dimensionality: usize,
    complexity: Complexity,
    user: IndexMap<Option<String>, usize>,
}

/// The mathematical shape of a physical stream.
pub struct PhysicalStreamModel {
    pub element: Seq<FieldEntry>,
    pub element_lanes: nat,
    pub dimensionality: nat,
    pub complexity: Seq<usize>,
    pub user: Seq<FieldEntry>,
}

impl PhysicalStream {
    /// There is at least one lane.
    #[verifier::type_invariant]
    spec fn has_lanes(self) -> bool {
        self.element_lanes > 0
    }
}

impl View for PhysicalStream {
    type V = PhysicalStreamModel;

    closed spec fn view(&self) -> PhysicalStreamModel {
        PhysicalStreamModel {
            element: field_entries(self.element),
            element_lanes: self.element_lanes as nat,
            dimensionality: self.dimensionality as nat,
            complexity: self.complexity@,
            user: field_entries(self.user),
        }
    }
}

/// What the constructor gives for its arguments: element fields are
/// checked first, then the lanes, then the user fields.
pub open spec fn physical_stream_of(
    element: Seq<FieldEntry>,
    lanes: usize,
    dimensionality: usize,
    complexity: Seq<usize>,
    user: Seq<FieldEntry>,
) -> Result<PhysicalStreamModel, Seq<char>> {
    match field_map_of(element) {
        Err(m) => Err(m),
        Ok(e) => if lanes == 0 {
            Err("element lanes cannot be zero"@)
        } else {
            match field_map_of(user) {
                Err(m) => Err(m),
                Ok(u) => Ok(PhysicalStreamModel {
                    element: e,
                    element_lanes: lanes as nat,
                    dimensionality: dimensionality as nat,
                    complexity: complexity,
                    user: u,
                }),
            }
        }
    }
}

/// The sum of the bit counts of fields.
pub open spec fn field_sum(s: Seq<FieldEntry>) -> nat
    decreases s.len(),
{
    if s.len() == 0 { 0 } else { (field_sum(s.drop_last()) + s.last().1) as nat }
}

proof fn lemma_field_sum_prefix(s: Seq<FieldEntry>, i: int)
    requires
        0 <= i <= s.len(),
    ensures
        field_sum(s.take(i)) <= field_sum(s),
    decreases s.len() - i,
{
    if i < s.len() {
        lemma_field_sum_prefix(s, i + 1);
        assert(s.take(i + 1).drop_last() =~= s.take(i));
    } else {
        assert(s.take(i) =~= s);
    }
}

/// The major complexity level, 0 for none.
pub open spec fn major_of(c: Seq<usize>) -> nat {
    if c.len() > 0 { c[0] as nat } else { 0 }
}

/// The bits of the data signal: all element fields, once per lane.
pub open spec fn data_bits(p: PhysicalStreamModel) -> nat {
    field_sum(p.element) * p.element_lanes
}

/// The bits of the `stai` signal: the index bits of the lanes, from
/// complexity 6 on with more than one lane.
pub open spec fn stai_bits(p: PhysicalStreamModel, log2_lanes: nat) -> nat {
    if major_of(p.complexity) >= 6 && p.element_lanes > 1 { log2_lanes } else { 0 }
}

/// The bits of the `endi` signal: the index bits of the lanes, from
/// complexity 5 on or with a dimension, with more than one lane.
pub open spec fn endi_bits(p: PhysicalStreamModel, log2_lanes: nat) -> nat {
    if (major_of(p.complexity) >= 5 || p.dimensionality >= 1) && p.element_lanes > 1 { log2_lanes } else { 0 }
}

/// The bits of the `strb` signal: one per lane, from complexity 7 on or
/// with a dimension.
pub open spec fn strb_bits(p: PhysicalStreamModel) -> nat {
    if major_of(p.complexity) >= 7 || p.dimensionality >= 1 { p.element_lanes } else { 0 }
}

/// Checks one given field.
#[verifier::loop_isolation(false)]
fn check_field(k: &Option<String>, v: usize) -> (r: Result<Option<String>, Error>)
    ensures
        match checked_field((opt_view(*k), v)) {
            Ok(e) => r matches Ok(key) && opt_view(key) == e.0,
            Err(m) => r matches Err(Error::InvalidArgument(em)) && em@ == m,
        },
{
    if v == 0 {
        return Err(Error::InvalidArgument(String::from_str("bit count cannot be zero")));
    }
    match k {
        None => Ok(None),
        Some(name) => {
            let cs = chars_of(name.as_str());
            if cs.len() == 0 {
                Ok(None)
            } else if char_is_digit(cs[0]) {
                Err(Error::InvalidArgument(String::from_str("name cannot start with a digit")))
            } else if cs[0] == '_' || cs[cs.len() - 1] == '_' {
                Err(Error::InvalidArgument(String::from_str("name cannot start or end with an underscore")))
            } else {
                let mut i: usize = 0;
                while i < cs.len()
                    invariant
                        i <= cs@.len(),
                        cs@ == name@,
                        forall|j: int| 0 <= j < i ==> is_alnum(#[trigger] cs@[j]) || cs@[j] == '_',
                    decreases cs@.len() - i,
                {
                    if !(char_is_alnum(cs[i]) || cs[i] == '_') {
                        assert(!(is_alnum(name@[i as int]) || name@[i as int] == '_'));
                        return Err(Error::InvalidArgument(
                            String::from_str("name must consist of letters, numbers, and/or underscores"),
                        ));
                    }
                    i = i + 1;
                }
                assert(cs@ == name@);
                Ok(Some(string_of(cs.as_slice())))
            }
        },
    }
}

/// The folded code of a character.
fn fold_code_of(c: char) -> (r: u32)
    ensures
        r == fold_code(c),
{
    if 'A' <= c && c <= 'Z' { (c as u32) + 32 } else { c as u32 }
}

/// Whether two keys are the same without regard to the case of letters.
fn same_folded_key(a: &Option<String>, b: &Option<String>) -> (r: bool)
    ensures
        r == (folded_key(opt_view(*a)) == folded_key(opt_view(*b))),
{
    match (a, b) {
        (None, None) => true,
        (Some(x), Some(y)) => {
            let xs = chars_of(x.as_str());
            let ys = chars_of(y.as_str());
            let ghost fx = xs@.map_values(|c: char| fold_code(c));
            let ghost fy = ys@.map_values(|c: char| fold_code(c));
            assert(folded_key(opt_view(*a)).unwrap() =~= fx);
            assert(folded_key(opt_view(*b)).unwrap() =~= fy);
            assert(folded_key(opt_view(*a)) == Some(fx));
            assert(folded_key(opt_view(*b)) == Some(fy));
            if xs.len() != ys.len() {
                assert(fx.len() != fy.len());
                return false;
            }
            let mut i: usize = 0;
            while i < xs.len()
                invariant
                    i <= xs@.len(),
                    xs@.len() == ys@.len(),
                    fx == xs@.map_values(|c: char| fold_code(c)),
                    fy == ys@.map_values(|c: char| fold_code(c)),
                    forall|k: int| 0 <= k < i ==> fx[k] == fy[k],
                    folded_key(opt_view(*a)) == Some(fx),
                    folded_key(opt_view(*b)) == Some(fy),
                decreases xs@.len() - i,
            {
                if fold_code_of(xs[i]) != fold_code_of(ys[i]) {
                    assert(fx[i as int] != fy[i as int]);
                    return false;
                }
                i = i + 1;
            }
            assert(fx =~= fy);
            true
        },
        _ => false,
    }
}

/// Builds a field map from the given fields, in order; fails with the
/// first refusal.
#[verifier::loop_isolation(false)]
fn unique_field_map(fields: Vec<(Option<String>, usize)>) -> (r: Result<IndexMap<Option<String>, usize>, Error>)
    ensures
        match field_map_of(given_fields(fields@)) {
            Ok(f) => r matches Ok(m) && field_entries(m) == f,
            Err(msg) => r matches Err(Error::InvalidArgument(em)) && em@ == msg,
        },
{
    let ghost given = given_fields(fields@);
    // Check every field first.
    let mut checked: Vec<(Option<String>, usize)> = Vec::new();
    let mut i: usize = 0;
    assert(given.take(0) =~= Seq::<FieldEntry>::empty());
    assert(given_fields(checked@) =~= Seq::<FieldEntry>::empty());
    while i < fields.len()
        invariant
            i <= fields@.len(),
            given == given_fields(fields@),
            checked_fields(given.take(i as int)) == Ok::<Seq<FieldEntry>, Seq<char>>(given_fields(checked@)),
        decreases fields@.len() - i,
    {
        proof {
            assert(given.take(i + 1).drop_last() =~= given.take(i as int));
            assert(given.take(i + 1).last() == given[i as int]);
        }
        let (k, v) = (&fields[i].0, fields[i].1);
        match check_field(k, v) {
            Err(e) => {
                proof { lemma_checked_fields_err(given, i as int); }
                return Err(e);
            },
            Ok(key) => {
                let ghost before = checked@;
                checked.push((key, v));
                assert(given_fields(checked@) =~= given_fields(before).push((opt_view(key), v)));
            },
        }
        i = i + 1;
    }
    assert(given.take(fields@.len() as int) =~= given);
    // Then refuse keys that repeat without regard to case.
    let ghost all = given_fields(checked@);
    let mut b: usize = 0;
    while b < checked.len()
        invariant
            b <= checked@.len(),
            all == given_fields(checked@),
            checked_fields(given) == Ok::<Seq<FieldEntry>, Seq<char>>(all),
            forall|x: int, y: int| 0 <= x < y < b ==> folded_key(all[x].0) != folded_key(all[y].0),
        decreases checked@.len() - b,
    {
        let mut a: usize = 0;
        while a < b
            invariant
                a <= b < checked@.len(),
                all == given_fields(checked@),
                checked_fields(given) == Ok::<Seq<FieldEntry>, Seq<char>>(all),
                forall|x: int, y: int| 0 <= x < y < b ==> folded_key(all[x].0) != folded_key(all[y].0),
                forall|x: int| 0 <= x < a ==> folded_key(all[x].0) != folded_key(all[b as int].0),
            decreases b - a,
        {
            if same_folded_key(&checked[a].0, &checked[b].0) {
                assert(folded_key(all[a as int].0) == folded_key(all[b as int].0));
                assert(has_duplicate_key(all));
                return Err(Error::InvalidArgument(String::from_str(
                    "field names must be case-insensitively unique within the set of named fields",
                )));
            }
            a = a + 1;
        }
        b = b + 1;
    }
    assert(!has_duplicate_key(all));
    // Then insert them.
    let mut m = field_map_new();
    let mut j: usize = 0;
    while j < checked.len()
        invariant
            j <= checked@.len(),
            all == given_fields(checked@),
            checked_fields(given) == Ok::<Seq<FieldEntry>, Seq<char>>(all),
            field_entries(m) == all.take(j as int),
            !has_duplicate_key(all),
        decreases checked@.len() - j,
    {
        let k = match &checked[j].0 {
            Some(s) => Some(s.clone()),
            None => None,
        };
        let v = checked[j].1;
        assert(opt_view(k) == all[j as int].0);
        let ghost before = field_entries(m);
        match field_map_insert(&mut m, k, v) {
            Some(_) => {
                proof {
                    let t = choose|t: int| 0 <= t < before.len() && (#[trigger] before[t]).0 == all[j as int].0;
                    assert(before[t] == all[t]);
                    assert(folded_key(all[t].0) == folded_key(all[j as int].0));
                    assert(has_duplicate_key(all));
                }
                return Err(Error::InvalidArgument(String::from_str(
                    "field names must be case-insensitively unique within the set of named fields",
                )));
            },
            None => {
                assert(all.take(j + 1) =~= before.push(all[j as int]));
            },
        }
        j = j + 1;
    }
    assert(all.take(checked@.len() as int) =~= all);
    Ok(m)
}

/// Once a prefix of the fields is refused, all of them are.
proof fn lemma_checked_fields_err(s: Seq<FieldEntry>, i: int)
    requires
        0 <= i < s.len(),
        checked_fields(s.take(i + 1)) is Err,
    ensures
        checked_fields(s.take(i + 1)) == checked_fields(s),
    decreases s.len() - i,
{
    if i + 1 < s.len() {
        assert(s.take(i + 2).drop_last() =~= s.take(i + 1));
        lemma_checked_fields_err(s, i + 1);
    } else {
        assert(s.take(i + 1) =~= s);
    }
}

impl PhysicalStream {
    /// Constructs a new physical stream; fails with `InvalidArgument` when a
    /// field is refused, keys repeat, or there are no lanes.
    pub fn new(
        element: Vec<(Option<String>, usize)>,
        element_lanes: usize,
        dimensionality: usize,
        complexity: Complexity,
        user: Vec<(Option<String>, usize)>,
    ) -> (r: Result<PhysicalStream, Error>)
        ensures
            match physical_stream_of(given_fields(element@), element_lanes, dimensionality, complexity@, given_fields(user@)) {
                Ok(p) => r matches Ok(s) && s@ == p,
                Err(m) => r matches Err(Error::InvalidArgument(em)) && em@ == m,
            },
    {
        let element_map = unique_field_map(element)?;
        if element_lanes == 0 {
            return Err(Error::InvalidArgument(String::from_str("element lanes cannot be zero")));
        }
        let user_map = unique_field_map(user)?;
        Ok(PhysicalStream {
            element: element_map,
            element_lanes,
            dimensionality,
            complexity,
            user: user_map,
        })
    }
}

/// The bit count that a signal map holds for a count: none for zero.
pub open spec fn signal_of(n: nat) -> Option<usize> {
    if n == 0 { None } else { Some(n as usize) }
}

/// The sum of all signal bit counts of a physical stream, `valid` and
/// `ready` left out.
pub open spec fn total_bits(p: PhysicalStreamModel, log2_lanes: nat) -> nat {
    data_bits(p) + p.dimensionality + stai_bits(p, log2_lanes) + endi_bits(p, log2_lanes)
        + strb_bits(p) + field_sum(p.user)
}

/// Whether every bit count of the stream's signals, and their sum, fits in
/// a `usize`.
pub open spec fn counts_fit(p: PhysicalStreamModel) -> bool {
    forall|k: nat| is_log2_ceil(p.element_lanes, k) ==> total_bits(p, k) <= usize::MAX
}

/// Copies the entries of a field map, in their order.
fn field_map_entries(m: &IndexMap<Option<String>, usize>) -> (r: Vec<(Option<String>, usize)>)
    ensures
        given_fields(r@) == field_entries(*m),
{
    let n = field_map_len(m);
    let mut r: Vec<(Option<String>, usize)> = Vec::new();
    let mut i: usize = 0;
    while i < n
        invariant
            i <= n,
            n == field_entries(*m).len(),
            given_fields(r@) == field_entries(*m).take(i as int),
        decreases n - i,
    {
        match field_map_get_index(m, i) {
            Some((k, v)) => {
                let ghost before = r@;
                r.push((copy_opt_string(k), *v));
                assert(given_fields(r@) =~= given_fields(before).push(field_entries(*m)[i as int]));
                assert(field_entries(*m).take(i + 1) =~= field_entries(*m).take(i as int).push(field_entries(*m)[i as int]));
            },
            None => {},
        }
        i = i + 1;
    }
    assert(field_entries(*m).take(n as int) =~= field_entries(*m));
    r
}

/// The sum of the bit counts of a field map.
fn field_map_sum(m: &IndexMap<Option<String>, usize>) -> (t: usize)
    requires
        field_sum(field_entries(*m)) <= usize::MAX,
    ensures
        t == field_sum(field_entries(*m)),
{
    let n = field_map_len(m);
    let ghost e = field_entries(*m);
    let mut t: usize = 0;
    let mut i: usize = 0;
    while i < n
        invariant
            i <= n,
            n == e.len(),
            e == field_entries(*m),
            field_sum(e) <= usize::MAX,
            t == field_sum(e.take(i as int)),
        decreases n - i,
    {
        proof {
            assert(e.take(i + 1).drop_last() =~= e.take(i as int));
            lemma_field_sum_prefix(e, i + 1);
        }
        match field_map_get_index(m, i) {
            Some((_, v)) => {
                t = t + *v;
            },
            None => {},
        }
        i = i + 1;
    }
    assert(e.take(n as int) =~= e);
    t
}

impl PhysicalStream {
    /// The element fields, in their order.
    pub fn element(&self) -> (r: Vec<(Option<String>, usize)>)
        ensures
            given_fields(r@) == self@.element,
    {
        field_map_entries(&self.element)
    }

    /// The number of element lanes.
    pub fn element_lanes(&self) -> (n: usize)
        ensures
            n == self@.element_lanes,
    {
        self.element_lanes
    }

    /// The dimensionality.
    pub fn dimensionality(&self) -> (n: usize)
        ensures
            n == self@.dimensionality,
    {
        self.dimensionality
    }

    /// The complexity.
    pub fn complexity(&self) -> (c: &Complexity)
        ensures
            c@ == self@.complexity,
    {
        &self.complexity
    }

    /// The user fields, in their order.
    pub fn user(&self) -> (r: Vec<(Option<String>, usize)>)
        ensures
            given_fields(r@) == self@.user,
    {
        field_map_entries(&self.user)
    }

    /// The bits of the data signal: the bits of all element fields times
    /// the number of lanes.
    pub fn data_bit_count(&self) -> (n: usize)
        requires
            data_bits(self@) <= usize::MAX,
        ensures
            n == data_bits(self@),
    {
        proof {
            use_type_invariant(self);
            let f = field_sum(field_entries(self.element));
            let l = self.element_lanes as nat;
            assert(f <= usize::MAX) by (nonlinear_arith)
                requires
                    f * l <= usize::MAX,
                    l >= 1,
            {
            }
        }
        let s = field_map_sum(&self.element);
        s * self.element_lanes
    }

    /// The bits of the `last` signal: one per dimension.
    pub fn last_bit_count(&self) -> (n: usize)
        ensures
            n == self@.dimensionality,
    {
        self.dimensionality
    }

    /// The bits of the `stai` (start index) signal.
    pub fn stai_bit_count(&self) -> (n: usize)
        ensures
            forall|k: nat| is_log2_ceil(self@.element_lanes, k) ==> n == stai_bits(self@, k),
    {
        if self.complexity.major() >= 6 && self.element_lanes > 1 {
            let k = log2_ceil(self.element_lanes);
            proof { lemma_log2_ceil_unique(self.element_lanes as nat, k as nat); }
            k
        } else {
            0
        }
    }

    /// The bits of the `endi` (end index) signal.
    pub fn endi_bit_count(&self) -> (n: usize)
        ensures
            forall|k: nat| is_log2_ceil(self@.element_lanes, k) ==> n == endi_bits(self@, k),
    {
        if (self.complexity.major() >= 5 || self.dimensionality >= 1) && self.element_lanes > 1 {
            let k = log2_ceil(self.element_lanes);
            proof { lemma_log2_ceil_unique(self.element_lanes as nat, k as nat); }
            k
        } else {
            0
        }
    }

    /// The bits of the `strb` (strobe) signal.
    pub fn strb_bit_count(&self) -> (n: usize)
        ensures
            n == strb_bits(self@),
    {
        if self.complexity.major() >= 7 || self.dimensionality >= 1 {
            self.element_lanes
        } else {
            0
        }
    }

    /// The bits of the user fields.
    pub fn user_bit_count(&self) -> (n: usize)
        requires
            field_sum(self@.user) <= usize::MAX,
        ensures
            n == field_sum(self@.user),
    {
        field_map_sum(&self.user)
    }

    /// The signal map of this stream: each signal's bit count, none where
    /// it is zero.
    pub fn signal_map(&self) -> (m: SignalMap)
        requires
            counts_fit(self@),
        ensures
            forall|k: nat| is_log2_ceil(self@.element_lanes, k) ==> m@ == signals_of(self@, k),
            m@.data == signal_of(data_bits(self@)),
            m@.last == signal_of(self@.dimensionality),
            m@.strb == signal_of(strb_bits(self@)),
            m@.user == signal_of(field_sum(self@.user)),
    {
        let ghost k = self.log2_lanes();
        proof {
            use_type_invariant(self);
            lemma_counts_fit(self@, k);
        }
        let opt = |x: usize| -> (r: Option<usize>)
            ensures r == signal_of(x as nat),
        { if x == 0 { None } else { Some(x) } };
        let m = SignalMap {
            data: opt(self.data_bit_count()),
            last: opt(self.last_bit_count()),
            stai: opt(self.stai_bit_count()),
            endi: opt(self.endi_bit_count()),
            strb: opt(self.strb_bit_count()),
            user: opt(self.user_bit_count()),
        };
        proof {
            assert forall|j: nat| is_log2_ceil(self@.element_lanes, j) implies m@ == signals_of(self@, j) by {
                lemma_log2_ceil_unique(self@.element_lanes, j);
            }
        }
        m
    }

    /// The combined bits of all signals, `valid` and `ready` left out.
    pub fn bit_count(&self) -> (n: usize)
        requires
            counts_fit(self@),
        ensures
            forall|k: nat| is_log2_ceil(self@.element_lanes, k) ==> n == total_bits(self@, k),
    {
        let ghost k = self.log2_lanes();
        proof {
            use_type_invariant(self);
            lemma_counts_fit(self@, k);
        }
        let n = self.data_bit_count() + self.last_bit_count() + self.stai_bit_count()
            + self.endi_bit_count() + self.strb_bit_count() + self.user_bit_count();
        proof {
            assert forall|j: nat| is_log2_ceil(self@.element_lanes, j) implies n == total_bits(self@, j) by {
                lemma_log2_ceil_unique(self@.element_lanes, j);
            }
        }
        n
    }

    /// The base-2 logarithm of the lanes, rounded up.
    spec fn log2_lanes(&self) -> nat {
        choose|k: nat| is_log2_ceil(self@.element_lanes, k)
    }
}

/// Where the counts fit, so does each of them.
proof fn lemma_counts_fit(p: PhysicalStreamModel, k: nat)
    requires
        counts_fit(p),
        p.element_lanes > 0,
        k == choose|j: nat| is_log2_ceil(p.element_lanes, j),
    ensures
        is_log2_ceil(p.element_lanes, k),
        total_bits(p, k) <= usize::MAX,
{
    lemma_log2_ceil_exists(p.element_lanes);
}

/// The bit counts of the signals of a physical stream, none where zero.
#[derive(Debug, Clone, Copy, PartialEq, Eq)]
pub struct SignalMap {
    pub data: Option<usize>,
    pub last: Option<usize>,
    pub stai: Option<usize>,
    pub endi: Option<usize>,
    pub strb: Option<usize>,
    pub user: Option<usize>,
}

/// The six counts of a signal map, in the order data, last, stai, endi,
/// strb, user.
pub struct SignalCounts {
    pub data: Option<usize>,
    pub last: Option<usize>,
    pub stai: Option<usize>,
    pub endi: Option<usize>,
    pub strb: Option<usize>,
    pub user: Option<usize>,
}

impl View for SignalMap {
    type V = SignalCounts;

    open spec fn view(&self) -> SignalCounts {
        SignalCounts {
            data: self.data,
            last: self.last,
            stai: self.stai,
            endi: self.endi,
            strb: self.strb,
            user: self.user,
        }
    }
}

/// The signal map of a physical stream.
pub open spec fn signals_of(p: PhysicalStreamModel, log2_lanes: nat) -> SignalCounts {
    SignalCounts {
        data: signal_of(data_bits(p)),
        last: signal_of(p.dimensionality),
        stai: signal_of(stai_bits(p, log2_lanes)),
        endi: signal_of(endi_bits(p, log2_lanes)),
        strb: signal_of(strb_bits(p)),
        user: signal_of(field_sum(p.user)),
    }
}

/// A count of zero for a missing signal.
pub open spec fn or_zero(o: Option<usize>) -> nat {
    match o {
        Some(n) => n as nat,
        None => 0,
    }
}

/// The sum of the counts of a signal map.
pub open spec fn signal_sum(m: SignalCounts) -> nat {
    or_zero(m.data) + or_zero(m.last) + or_zero(m.stai) + or_zero(m.endi) + or_zero(m.strb)
        + or_zero(m.user)
}

fn zero_if_none(o: Option<usize>) -> (n: usize)
    ensures
        n == or_zero(o),
{
    match o {
        Some(n) => n,
        None => 0,
    }
}

impl SignalMap {
    /// The bits of the `data` signal.
    pub fn data(&self) -> (n: Option<usize>)
        ensures
            n == self.data,
    {
        self.data
    }

    /// The bits of the `last` signal.
    pub fn last(&self) -> (n: Option<usize>)
        ensures
            n == self.last,
    {
        self.last
    }

    /// The bits of the `stai` signal.
    pub fn stai(&self) -> (n: Option<usize>)
        ensures
            n == self.stai,
    {
        self.stai
    }

    /// The bits of the `endi` signal.
    pub fn endi(&self) -> (n: Option<usize>)
        ensures
            n == self.endi,
    {
        self.endi
    }

    /// The bits of the `strb` signal.
    pub fn strb(&self) -> (n: Option<usize>)
        ensures
            n == self.strb,
    {
        self.strb
    }

    /// The bits of the `user` signal.
    pub fn user(&self) -> (n: Option<usize>)
        ensures
            n == self.user,
    {
        self.user
    }

    /// The combined bits of all signals, none when zero.
    pub fn opt_bit_count(&self) -> (n: Option<usize>)
        requires
            signal_sum(self@) <= usize::MAX,
        ensures
            n == signal_of(signal_sum(self@)),
    {
        let t = zero_if_none(self.data) + zero_if_none(self.last) + zero_if_none(self.stai)
            + zero_if_none(self.endi) + zero_if_none(self.strb) + zero_if_none(self.user);
        if t == 0 { None } else { Some(t) }
    }

    /// The combined bits of all signals.
    pub fn bit_count(&self) -> (n: usize)
        requires
            signal_sum(self@) <= usize::MAX,
        ensures
            n == signal_sum(self@),
    {
        match self.opt_bit_count() {
            Some(n) => n,
            None => 0,
        }
    }

    /// The signals with their names and bit counts, in the order data,
    /// last, stai, endi, strb, user; zero for a missing signal.
    pub fn to_vec(&self) -> (v: Vec<(&'static str, usize)>)
        ensures
            v@.len() == 6,
            v@[0].1 == or_zero(self.data),
            v@[1].1 == or_zero(self.last),
            v@[2].1 == or_zero(self.stai),
            v@[3].1 == or_zero(self.endi),
            v@[4].1 == or_zero(self.strb),
            v@[5].1 == or_zero(self.user),
            v@[0].0@ == "data"@,
            v@[1].0@ == "last"@,
            v@[2].0@ == "stai"@,
            v@[3].0@ == "endi"@,
            v@[4].0@ == "strb"@,
            v@[5].0@ == "user"@,
    {
        vec![
            ("data", zero_if_none(self.data)),
            ("last", zero_if_none(self.last)),
            ("stai", zero_if_none(self.stai)),
            ("endi", zero_if_none(self.endi)),
            ("strb", zero_if_none(self.strb)),
            ("user", zero_if_none(self.user)),
        ]
    }
}

/// The signal map of a physical stream.
pub fn signal_map_of(physical_stream: &PhysicalStream) -> (m: SignalMap)
    requires
        counts_fit(physical_stream@),
    ensures
        forall|k: nat| is_log2_ceil(physical_stream@.element_lanes, k) ==> m@ == signals_of(physical_stream@, k),
{
    physical_stream.signal_map()
}

/// The signal map of a physical stream agrees with its bit counts: each
/// signal that is there has the count of its kind, the missing ones count
/// zero, and together they make the bit count of the stream.
pub proof fn lemma_signal_map_counts(p: PhysicalStreamModel, k: nat)
    requires
        total_bits(p, k) <= usize::MAX,
    ensures
        or_zero(signals_of(p, k).data) == data_bits(p),
        or_zero(signals_of(p, k).last) == p.dimensionality,
        or_zero(signals_of(p, k).stai) == stai_bits(p, k),
        or_zero(signals_of(p, k).endi) == endi_bits(p, k),
        or_zero(signals_of(p, k).strb) == strb_bits(p),
        or_zero(signals_of(p, k).user) == field_sum(p.user),
        signal_sum(signals_of(p, k)) == total_bits(p, k),
{
}


/// The `stai` signal exists only from complexity 6 on and with more than
/// one lane: below complexity 6, or with one lane, a stream has no `stai`
/// bits and no `stai` signal; from complexity 6 on with more than one lane
/// it has as many bits as it takes to number the lanes.
pub proof fn lemma_stai_from_complexity_six(p: PhysicalStreamModel, k: nat)
    requires
        is_log2_ceil(p.element_lanes, k),
    ensures
        major_of(p.complexity) < 6 ==> stai_bits(p, k) == 0 && signals_of(p, k).stai is None,
        p.element_lanes <= 1 ==> stai_bits(p, k) == 0 && signals_of(p, k).stai is None,
        major_of(p.complexity) >= 6 && p.element_lanes > 1 ==> stai_bits(p, k) == k && k >= 1
            && signals_of(p, k).stai == Some(k as usize),
{
    if p.element_lanes > 1 && k == 0 {
        assert(crate::util::pow2(0) == 1);
    }
}

} // verus!
