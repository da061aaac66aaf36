//! Named types and parameters, and the stores that keep them under unique
//! keys.

use vstd::prelude::*;
use indexmap::IndexMap;
use crate::error::{Error, Result};
use crate::logical::{LogicalModel, LogicalStreamType};
use crate::name::{is_valid_name, name_refusal, Name};
use crate::phys::opt_view;
use crate::design::opt_str_view;

verus! {

/// A type with a name in a library.
#[derive(Debug, PartialEq)]
pub struct NamedType {
    key: Name,
    inner: LogicalStreamType,
    doc: Option<String>,
}

/// The mathematical shape of a named type.
pub struct NamedTypeModel {
    pub key: Seq<char>,
    pub typ: LogicalModel,
    pub doc: Option<Seq<char>>,
}

impl View for NamedType {
    type V = NamedTypeModel;

    closed spec fn view(&self) -> NamedTypeModel {
        NamedTypeModel { key: self.key@, typ: self.inner@, doc: opt_view(self.doc) }
    }
}

fn owned_doc(doc: Option<&str>) -> (r: Option<String>)
    ensures
        opt_view(r) == opt_str_view(doc),
{
    match doc {
        Some(d) => Some(d.to_owned()),
        None => None,
    }
}

impl NamedType {
    /// A named type; fails where the key breaks a naming rule.
    pub fn try_new(key: &str, typ: LogicalStreamType, doc: Option<&str>) -> (r: Result<NamedType>)
        ensures
            is_valid_name(key@) ==> (r matches Ok(t)
                && t@ == (NamedTypeModel { key: key@, typ: typ@, doc: opt_str_view(doc) })),
            !is_valid_name(key@) ==> (r matches Err(Error::InvalidArgument(m)) && m@ == name_refusal(key@)),
    {
        let k = Name::try_new(key)?;
        Ok(NamedType { key: k, inner: typ, doc: owned_doc(doc) })
    }

    /// The key of the type.
    pub fn key(&self) -> (k: &Name)
        ensures
            k@ == self@.key,
    {
        &self.key
    }

    /// The logical stream type.
    pub fn logical(&self) -> (t: &LogicalStreamType)
        ensures
            t@ == self@.typ,
    {
        &self.inner
    }

    /// The name of the type, as text.
    pub fn identifier(&self) -> (s: &str)
        ensures
            s@ == self@.key,
    {
        self.key.as_str()
    }

    /// The documentation of the type.
    pub fn doc(&self) -> (d: &Option<String>)
        ensures
            opt_view(*d) == self@.doc,
    {
        &self.doc
    }
}

/// Whether a key occurs twice among the keys.
pub open spec fn has_duplicate_key(keys: Seq<Seq<char>>) -> bool {
    exists|i: int, j: int| 0 <= i < j < keys.len() && #[trigger] keys[i] == #[trigger] keys[j]
}

/// The entries of a type map, in their order.
pub uninterp spec fn type_entries(m: IndexMap<String, NamedType>) -> Seq<(Seq<char>, NamedType)>;

/// Whether an entry with this key is in the entries.
pub open spec fn has_type_key(entries: Seq<(Seq<char>, NamedType)>, k: Seq<char>) -> bool {
    exists|i: int| 0 <= i < entries.len() && (#[trigger] entries[i]).0 == k
}

/// `IndexMap::new`: a map without entries.
#[verifier::external_body]
fn type_map_new() -> (m: IndexMap<String, NamedType>)
    ensures
        type_entries(m) == Seq::<(Seq<char>, NamedType)>::empty(),
{
    IndexMap::new()
}

/// `IndexMap::insert` of a key that is not in the map: the entry goes
/// last.
#[verifier::external_body]
fn type_map_insert(m: &mut IndexMap<String, NamedType>, k: String, v: NamedType) -> (old_value: Option<NamedType>)
    requires
        !has_type_key(type_entries(*old(m)), k@),
    ensures
        old_value is None,
        type_entries(*final(m)) == type_entries(*old(m)).push((k@, v)),
{
    m.insert(k, v)
}

/// `IndexMap::get`: the value of an entry with the key, if there is one.
#[verifier::external_body]
fn type_map_get<'a>(m: &'a IndexMap<String, NamedType>, k: &str) -> (r: Option<&'a NamedType>)
    ensures
        r is Some <==> has_type_key(type_entries(*m), k@),
        r matches Some(v) ==> exists|i: int| 0 <= i < type_entries(*m).len()
            && (#[trigger] type_entries(*m)[i]).0 == k@ && type_entries(*m)[i].1 == *v,
{
    m.get(k)
}

/// `IndexMap::len`: the number of entries.
#[verifier::external_body]
fn type_map_len(m: &IndexMap<String, NamedType>) -> (n: usize)
    ensures
        n == type_entries(*m).len(),
{
    m.len()
}

/// `IndexMap::get_index`: the entry at a position, if there is one.
#[verifier::external_body]
fn type_map_get_index(m: &IndexMap<String, NamedType>, i: usize) -> (r: Option<(&String, &NamedType)>)
    ensures
        r is Some <==> i < type_entries(*m).len(),
        r matches Some(e) ==> e.0@ == type_entries(*m)[i as int].0 && *e.1 == type_entries(*m)[i as int].1,
{
    m.get_index(i)
}

/// Named types under unique keys, in the order they were added.
#[derive(Debug, PartialEq)]
pub struct NamedTypeStore {
    types: IndexMap<String, NamedType>,
}

/// The keys of named types.
pub open spec fn type_keys(s: Seq<NamedType>) -> Seq<Seq<char>> {
    s.map_values(|t: NamedType| t@.key)
}

/// The types of the entries of a type map.
pub open spec fn entry_types(e: Seq<(Seq<char>, NamedType)>) -> Seq<NamedType> {
    e.map_values(|x: (Seq<char>, NamedType)| x.1)
}

impl NamedTypeStore {
    /// Each entry is under the key of its type, and the keys do not repeat.
    #[verifier::type_invariant]
    spec fn keys_unique(self) -> bool {
        let e = type_entries(self.types);
        &&& forall|i: int| 0 <= i < e.len() ==> (#[trigger] e[i]).0 == e[i].1@.key
        &&& !has_duplicate_key(type_keys(entry_types(e)))
    }

    /// The types, in their order.
    pub closed spec fn entries(&self) -> Seq<NamedType> {
        entry_types(type_entries(self.types))
    }

    /// An empty store.
    pub fn new() -> (s: NamedTypeStore)
        ensures
            s.entries().len() == 0,
    {
        let m = type_map_new();
        assert(type_keys(entry_types(type_entries(m))) =~= Seq::empty());
        NamedTypeStore { types: m }
    }

    /// The store of the given types; fails when a key repeats.
    pub fn from_builder(types: Vec<NamedType>) -> (r: Result<NamedTypeStore>)
        ensures
            !has_duplicate_key(type_keys(types@)) ==> (r matches Ok(s) && s.entries() == types@),
            has_duplicate_key(type_keys(types@)) ==> (r matches Err(Error::UnexpectedDuplicate)),
    {
        let ghost keys = type_keys(types@);
        let mut j: usize = 0;
        while j < types.len()
            invariant
                j <= types@.len(),
                keys == type_keys(types@),
                forall|a: int, b: int| 0 <= a < b < j ==> keys[a] != keys[b],
            decreases types@.len() - j,
        {
            let mut i: usize = 0;
            while i < j
                invariant
                    i <= j < types@.len(),
                    keys == type_keys(types@),
                    forall|a: int, b: int| 0 <= a < b < j ==> keys[a] != keys[b],
                    forall|a: int| 0 <= a < i ==> keys[a] != keys[j as int],
                decreases j - i,
            {
                if types[i].key.same(&types[j].key) {
                    assert(keys[i as int] == keys[j as int]);
                    return Err(Error::UnexpectedDuplicate);
                }
                i = i + 1;
            }
            j = j + 1;
        }
        let ghost all = types@;
        let mut m = type_map_new();
        let mut rest = types;
        let ghost mut k: int = 0;
        assert(entry_types(type_entries(m)) =~= all.take(0));
        while rest.len() > 0
            invariant
                0 <= k <= all.len(),
                rest@ == all.skip(k),
                keys == type_keys(all),
                forall|a: int, b: int| 0 <= a < b < all.len() ==> keys[a] != keys[b],
                entry_types(type_entries(m)) == all.take(k),
                forall|i: int| 0 <= i < type_entries(m).len()
                    ==> (#[trigger] type_entries(m)[i]).0 == type_entries(m)[i].1@.key,
            decreases rest@.len(),
        {
            let ghost before = rest@;
            let t = rest.remove(0);
            let ghost e0 = type_entries(m);
            assert(before[0] == all[k]);
            assert(t == all[k]);
            assert(rest@ =~= all.skip(k + 1));
            assert(entry_types(e0).len() == e0.len());
            assert(e0.len() == k);
            proof {
                if has_type_key(e0, t@.key) {
                    let x = choose|x: int| 0 <= x < e0.len() && (#[trigger] e0[x]).0 == t@.key;
                    assert(entry_types(e0)[x] == all.take(k)[x]);
                    assert(e0[x].1 == all[x]);
                    assert(keys[x] == keys[k]);
                }
            }
            let key = t.key.as_str().to_owned();
            type_map_insert(&mut m, key, t);
            assert(entry_types(type_entries(m)) =~= entry_types(e0).push(t));
            assert(all.take(k + 1) =~= all.take(k).push(all[k]));
            proof { k = k + 1; }
        }
        assert(all.take(k) =~= all);
        assert(type_keys(entry_types(type_entries(m))) =~= keys);
        Ok(NamedTypeStore { types: m })
    }

    /// The type under a key; fails with a `ProjectError` where there is none.
    pub fn get(&self, key: &Name) -> (r: Result<&NamedType>)
        ensures
            (exists|i: int| 0 <= i < self.entries().len() && self.entries()[i]@.key == key@) ==> (r matches Ok(t)
                && t@.key == key@ && forall|i: int| 0 <= i < self.entries().len() && self.entries()[i]@.key == key@
                    ==> self.entries()[i] == *t),
            !(exists|i: int| 0 <= i < self.entries().len() && self.entries()[i]@.key == key@) ==> (r matches Err(Error::ProjectError(m))
                && m@ == "Type with key "@ + key@ + " does not exist."@),
    {
        proof { use_type_invariant(self); }
        let ghost e = type_entries(self.types);
        match type_map_get(&self.types, key.as_str()) {
            Some(t) => {
                proof {
                    let x = choose|x: int| 0 <= x < e.len() && (#[trigger] e[x]).0 == key@ && e[x].1 == *t;
                    assert(entry_types(e)[x] == *t);
                    assert forall|i: int| 0 <= i < entry_types(e).len() && entry_types(e)[i]@.key == key@
                        implies entry_types(e)[i] == *t by {
                        if i != x {
                            assert(type_keys(entry_types(e))[i] == type_keys(entry_types(e))[x]);
                            assert(has_duplicate_key(type_keys(entry_types(e))));
                        }
                    }
                }
                Ok(t)
            },
            None => {
                proof {
                    assert forall|i: int| 0 <= i < entry_types(e).len() implies entry_types(e)[i]@.key != key@ by {
                        assert(e[i].0 == e[i].1@.key);
                    }
                }
                let mut m = String::from_str("Type with key ");
                m.append(key.as_str());
                m.append(" does not exist.");
                Err(Error::ProjectError(m))
            },
        }
    }

    /// Adds a type; fails with a `ProjectError` where its key is taken.
    pub fn insert(&mut self, typ: NamedType) -> (r: Result<Name>)
        ensures
            (exists|i: int| 0 <= i < old(self).entries().len() && old(self).entries()[i]@.key == typ@.key) ==> (
                r matches Err(Error::ProjectError(m)) && m@ == "Type "@ + typ@.key + " already in library."@
                && final(self).entries() == old(self).entries()),
            !(exists|i: int| 0 <= i < old(self).entries().len() && old(self).entries()[i]@.key == typ@.key) ==> (
                r matches Ok(k) && k@ == typ@.key && final(self).entries() == old(self).entries().push(typ)),
    {
        proof { use_type_invariant(&*self); }
        let ghost e = type_entries(self.types);
        if type_map_get(&self.types, typ.key.as_str()).is_some() {
            proof {
                let x = choose|x: int| 0 <= x < e.len() && (#[trigger] e[x]).0 == typ@.key;
                assert(entry_types(e)[x]@.key == typ@.key);
            }
            let mut m = String::from_str("Type ");
            m.append(typ.key.as_str());
            m.append(" already in library.");
            return Err(Error::ProjectError(m));
        }
        proof {
            assert forall|i: int| 0 <= i < entry_types(e).len() implies entry_types(e)[i]@.key != typ@.key by {
                assert(e[i].0 == e[i].1@.key);
            }
        }
        let k = typ.key.duplicate();
        let key = typ.key.as_str().to_owned();
        let ghost before = entry_types(e);
        proof {
            assert(!has_duplicate_key(type_keys(before.push(typ)))) by {
                let ks = type_keys(before.push(typ));
                assert(ks =~= type_keys(before).push(typ@.key));
                if has_duplicate_key(ks) {
                    let (a, b) = choose|a: int, b: int| 0 <= a < b < ks.len() && #[trigger] ks[a] == #[trigger] ks[b];
                    if b == before.len() {
                        assert(before[a]@.key == typ@.key);
                    } else {
                        assert(type_keys(before)[a] == type_keys(before)[b]);
                    }
                }
            }
        }
        let mut m = type_map_new();
        std::mem::swap(&mut m, &mut self.types);
        type_map_insert(&mut m, key, typ);
        assert(entry_types(type_entries(m)) =~= before.push(typ));
        self.types = m;
        Ok(k)
    }

    /// The types, in their order.
    pub fn types(&self) -> (v: Vec<&NamedType>)
        ensures
            v@.len() == self.entries().len(),
            forall|i: int| 0 <= i < v@.len() ==> *v@[i] == self.entries()[i],
    {
        let n = type_map_len(&self.types);
        let ghost e = type_entries(self.types);
        let mut v: Vec<&NamedType> = Vec::new();
        let mut i: usize = 0;
        while i < n
            invariant
                i <= n,
                n == e.len(),
                e == type_entries(self.types),
                v@.len() == i,
                forall|j: int| 0 <= j < i ==> *v@[j] == entry_types(e)[j],
            decreases n - i,
        {
            match type_map_get_index(&self.types, i) {
                Some((_, t)) => v.push(t),
                None => {},
            }
            i = i + 1;
        }
        v
    }
}

impl Default for NamedTypeStore {
    fn default() -> (s: NamedTypeStore)
        ensures
            s.entries().len() == 0,
    {
        NamedTypeStore::new()
    }
}

/// A type added to a store under a key that was free is found under that
/// key afterwards, and it is the only entry there: what `get` gives back
/// after an `insert` is the type inserted.
pub proof fn lemma_insert_then_get(before: Seq<NamedType>, t: NamedType)
    requires
        !(exists|i: int| 0 <= i < before.len() && before[i]@.key == t@.key),
    ensures
        exists|i: int| 0 <= i < before.push(t).len() && before.push(t)[i]@.key == t@.key,
        forall|i: int| 0 <= i < before.push(t).len() && before.push(t)[i]@.key == t@.key ==> before.push(t)[i] == t,
{
    assert(before.push(t)[before.len() as int] == t);
}

/// The value of a parameter.
#[derive(Debug, PartialEq)]
pub enum ParameterVariant {
    /// A type.
    Type(LogicalStreamType),
    /// A text.
    String(String),
    /// A number.
    UInt(u32),
}

/// A parameter with a key.
#[derive(Debug, PartialEq)]
pub struct NamedParameter {
    key: Name,
    item: ParameterVariant,
    doc: Option<String>,
}

impl NamedParameter {
    /// A parameter; fails where the key breaks a naming rule.
    pub fn try_new(key: &str, item: ParameterVariant, doc: Option<&str>) -> (r: Result<NamedParameter>)
        ensures
            is_valid_name(key@) ==> (r matches Ok(p) && p.key_of() == key@ && p.item_of() == item
                && p.doc_of() == opt_str_view(doc)),
            !is_valid_name(key@) ==> (r matches Err(Error::InvalidArgument(m)) && m@ == name_refusal(key@)),
    {
        let k = Name::try_new(key)?;
        Ok(NamedParameter { key: k, item, doc: owned_doc(doc) })
    }

    /// The key of the parameter.
    pub closed spec fn key_of(&self) -> Seq<char> {
        self.key@
    }

    /// The value of the parameter.
    pub closed spec fn item_of(&self) -> ParameterVariant {
        self.item
    }

    /// The documentation of the parameter.
    pub closed spec fn doc_of(&self) -> Option<Seq<char>> {
        opt_view(self.doc)
    }

    /// The key of the parameter.
    pub fn key(&self) -> (k: &Name)
        ensures
            k@ == self.key_of(),
    {
        &self.key
    }

    /// The value of the parameter.
    pub fn item(&self) -> (i: &ParameterVariant)
        ensures
            *i == self.item_of(),
    {
        &self.item
    }

    /// The key of the parameter, as text.
    pub fn identifier(&self) -> (s: &str)
        ensures
            s@ == self.key_of(),
    {
        self.key.as_str()
    }

    /// The documentation of the parameter.
    pub fn doc(&self) -> (d: Option<String>)
        ensures
            opt_view(d) == self.doc_of(),
    {
        match &self.doc {
            Some(d) => Some(d.clone()),
            None => None,
        }
    }
}

/// A handle to a parameter in a store.
#[derive(Debug, Clone, PartialEq)]
pub struct ParamHandle {
    pub lib: Name,
    pub param: Name,
}

/// Parameters under unique keys.
///
/// The entries are kept in a `Vec` in the order they were added, with a
/// type invariant that their keys do not repeat: a `HashMap` keyed by
/// text would give Verus nothing it can prove of a lookup, and its order
/// of iteration is not fixed.
#[derive(Debug, PartialEq)]
pub struct ParameterStore {
    key: Name,
    params: Vec<NamedParameter>,
}

/// The keys of parameters.
pub open spec fn param_keys(s: Seq<NamedParameter>) -> Seq<Seq<char>> {
    s.map_values(|p: NamedParameter| p.key_of())
}

impl ParameterStore {
    /// The keys do not repeat.
    #[verifier::type_invariant]
    spec fn keys_unique(self) -> bool {
        !has_duplicate_key(param_keys(self.params@))
    }

    /// The key of the store.
    pub closed spec fn store_key(&self) -> Seq<char> {
        self.key@
    }

    /// The parameters, in their order.
    pub closed spec fn entries(&self) -> Seq<NamedParameter> {
        self.params@
    }

    /// The store of the given parameters; fails when a key repeats.
    pub fn from_builder(key: Name, params: Vec<NamedParameter>) -> (r: Result<ParameterStore>)
        ensures
            !has_duplicate_key(param_keys(params@)) ==> (r matches Ok(s) && s.entries() == params@
                && s.store_key() == key@),
            has_duplicate_key(param_keys(params@)) ==> (r matches Err(Error::UnexpectedDuplicate)),
    {
        let ghost keys = param_keys(params@);
        let mut j: usize = 0;
        while j < params.len()
            invariant
                j <= params@.len(),
                keys == param_keys(params@),
                forall|a: int, b: int| 0 <= a < b < j ==> keys[a] != keys[b],
            decreases params@.len() - j,
        {
            let mut i: usize = 0;
            while i < j
                invariant
                    i <= j < params@.len(),
                    keys == param_keys(params@),
                    forall|a: int, b: int| 0 <= a < b < j ==> keys[a] != keys[b],
                    forall|a: int| 0 <= a < i ==> keys[a] != keys[j as int],
                decreases j - i,
            {
                if params[i].key.same(&params[j].key) {
                    assert(keys[i as int] == keys[j as int]);
                    return Err(Error::UnexpectedDuplicate);
                }
                i = i + 1;
            }
            j = j + 1;
        }
        Ok(ParameterStore { key, params })
    }

    /// Adds a parameter; where its key is taken, the new parameter takes the
    /// place of the old one and the call fails with a `ProjectError`.
    #[verifier::loop_isolation(false)]
    pub fn add(&mut self, param: NamedParameter) -> (r: Result<ParamHandle>)
        ensures
            (exists|i: int| 0 <= i < old(self).entries().len() && old(self).entries()[i].key_of() == param.key_of()) ==> (
                r matches Err(Error::ProjectError(m))
                && m@ == "Error while adding "@ + param.key_of() + " to the library"@
                && exists|i: int| 0 <= i < old(self).entries().len()
                    && old(self).entries()[i].key_of() == param.key_of()
                    && final(self).entries() == old(self).entries().update(i, param)),
            !(exists|i: int| 0 <= i < old(self).entries().len() && old(self).entries()[i].key_of() == param.key_of()) ==> (
                r matches Ok(h) && h.lib@ == old(self).store_key() && h.param@ == param.key_of()
                && final(self).entries() == old(self).entries().push(param)),
            final(self).store_key() == old(self).store_key(),
    {
        proof { use_type_invariant(&*self); }
        let mut i: usize = 0;
        while i < self.params.len()
            invariant
                i <= self.params@.len(),
                self.params@ == old(self).params@,
                self.key == old(self).key,
                forall|a: int| 0 <= a < i ==> self.params@[a].key_of() != param.key_of(),
            decreases self.params@.len() - i,
        {
            if self.params[i].key.same(&param.key) {
                assert(old(self).entries()[i as int].key_of() == param.key_of());
                let mut m = String::from_str("Error while adding ");
                m.append(param.key.as_str());
                m.append(" to the library");
                let ghost before = self.params@;
                proof {
                    assert(param_keys(before.update(i as int, param)) =~= param_keys(before));
                }
                let mut v: Vec<NamedParameter> = Vec::new();
                std::mem::swap(&mut v, &mut self.params);
                v[i] = param;
                self.params = v;
                return Err(Error::ProjectError(m));
            }
            i = i + 1;
        }
        let h = ParamHandle { lib: self.key.duplicate(), param: param.key.duplicate() };
        let ghost before = self.params@;
        proof {
            assert(param_keys(before.push(param)) =~= param_keys(before).push(param.key_of()));
            assert(!has_duplicate_key(param_keys(before.push(param)))) by {
                let ks = param_keys(before.push(param));
                if has_duplicate_key(ks) {
                    let (a, b) = choose|a: int, b: int| 0 <= a < b < ks.len() && #[trigger] ks[a] == #[trigger] ks[b];
                    if b == before.len() {
                        assert(before[a].key_of() == param.key_of());
                    } else {
                        assert(param_keys(before)[a] == param_keys(before)[b]);
                    }
                }
            }
        }
        let mut v: Vec<NamedParameter> = Vec::new();
        std::mem::swap(&mut v, &mut self.params);
        v.push(param);
        self.params = v;
        Ok(h)
    }

    /// The parameter under a key; fails with a `LibraryError` where there is
    /// none.
    pub fn get(&self, key: &Name) -> (r: Result<&NamedParameter>)
        ensures
            (exists|i: int| 0 <= i < self.entries().len() && self.entries()[i].key_of() == key@) ==> (r matches Ok(p)
                && p.key_of() == key@ && forall|i: int| 0 <= i < self.entries().len() && self.entries()[i].key_of() == key@
                    ==> self.entries()[i] == *p),
            !(exists|i: int| 0 <= i < self.entries().len() && self.entries()[i].key_of() == key@) ==> (
                r matches Err(Error::LibraryError(m))
                && m@ == "Parameter "@ + key@ + " not found in store "@ + self.store_key()),
    {
        let mut i: usize = 0;
        while i < self.params.len()
            invariant
                i <= self.params@.len(),
                forall|a: int| 0 <= a < i ==> self.params@[a].key_of() != key@,
            decreases self.params@.len() - i,
        {
            if self.params[i].key.same(key) {
                proof {
                    use_type_invariant(self);
                    assert forall|a: int| 0 <= a < self.params@.len() && self.params@[a].key_of() == key@
                        implies self.params@[a] == self.params@[i as int] by {
                        if a != i {
                            assert(param_keys(self.params@)[a] == param_keys(self.params@)[i as int]);
                            assert(has_duplicate_key(param_keys(self.params@)));
                        }
                    }
                }
                return Ok(&self.params[i]);
            }
            i = i + 1;
        }
        let mut m = String::from_str("Parameter ");
        m.append(key.as_str());
        m.append(" not found in store ");
        m.append(self.key.as_str());
        Err(Error::LibraryError(m))
    }

    /// The key of the store.
    pub fn key(&self) -> (k: &Name)
        ensures
            k@ == self.store_key(),
    {
        &self.key
    }
}

} // verus!
