//! Libraries of streamlets, read from streamlet definition files, and the
//! projects that group libraries.

use vstd::prelude::*;
use crate::design::{Streamlet, StreamletModel, QUOTE};
use crate::error::{Error, Result};
use crate::name::{is_valid_name, name_refusal, Name};
use crate::sdf::{list_of_streamlets, p_streamlet_list, streamlet_models};
use crate::store::ParameterStore;
use crate::text::push_char;

verus! {

/// Whether two of the streamlets share a name.
pub open spec fn has_duplicate_streamlet(s: Seq<StreamletModel>) -> bool {
    exists|i: int, j: int| 0 <= i < j < s.len() && #[trigger] s[i].name == #[trigger] s[j].name
}

/// A handle to a streamlet in a library.
#[derive(Debug, Clone, PartialEq)]
pub struct StreamletHandle {
    pub lib: Name,
    pub streamlet: Name,
}

/// The keys of parameter stores.
pub open spec fn store_keys(s: Seq<ParameterStore>) -> Seq<Seq<char>> {
    s.map_values(|p: ParameterStore| p.store_key())
}

/// Whether two of the keys are the same.
pub open spec fn has_duplicate_store(k: Seq<Seq<char>>) -> bool {
    exists|i: int, j: int| 0 <= i < j < k.len() && #[trigger] k[i] == #[trigger] k[j]
}

/// A named library of parameter stores with distinct keys and of
/// streamlets with distinct names.
///
/// The entries are kept in a `Vec` in the order they were added, with a
/// type invariant that their keys do not repeat: a `HashMap` keyed by
/// text would give Verus nothing it can prove of a lookup, and its order
/// of iteration is not fixed.
#[derive(Debug, PartialEq)]
pub struct Library {
    key: Name,
    parameter_stores: Vec<ParameterStore>,
    streamlets: Vec<Streamlet>,
}

impl Library {
    /// The keys of the stores and the names of the streamlets do not
    /// repeat.
    #[verifier::type_invariant]
    spec fn names_unique(self) -> bool {
        &&& !has_duplicate_streamlet(streamlet_models(self.streamlets@))
        &&& !has_duplicate_store(store_keys(self.parameter_stores@))
    }

    /// The keys of the parameter stores of the library, in their order.
    pub closed spec fn store_keys_of(&self) -> Seq<Seq<char>> {
        store_keys(self.parameter_stores@)
    }

    /// The key of the library.
    pub closed spec fn key_of(&self) -> Seq<char> {
        self.key@
    }

    /// The streamlets of the library, in their order.
    pub closed spec fn entries(&self) -> Seq<StreamletModel> {
        streamlet_models(self.streamlets@)
    }

    /// An empty library.
    pub fn new(key: Name) -> (l: Library)
        ensures
            l.key_of() == key@,
            l.entries().len() == 0,
            l.store_keys_of().len() == 0,
    {
        let l = Library { key, parameter_stores: Vec::new(), streamlets: Vec::new() };
        assert(streamlet_models(l.streamlets@) =~= Seq::empty());
        assert(store_keys(l.parameter_stores@) =~= Seq::empty());
        l
    }

    /// A library of the given parameter stores and streamlets; fails when
    /// two stores share a key or two streamlets share a name.
    pub fn try_new(key: Name, parameter_stores: Vec<ParameterStore>, streamlets: Vec<Streamlet>) -> (r: Result<Library>)
        ensures
            has_duplicate_store(store_keys(parameter_stores@)) ==> (r matches Err(Error::UnexpectedDuplicate)),
            has_duplicate_streamlet(streamlet_models(streamlets@)) ==> (r matches Err(Error::UnexpectedDuplicate)),
            !has_duplicate_store(store_keys(parameter_stores@)) && !has_duplicate_streamlet(streamlet_models(streamlets@))
                ==> (r matches Ok(l) && l.key_of() == key@ && l.entries() == streamlet_models(streamlets@)
                    && l.store_keys_of() == store_keys(parameter_stores@)),
    {
        let ghost k = store_keys(parameter_stores@);
        let mut j: usize = 0;
        while j < parameter_stores.len()
            invariant
                j <= parameter_stores@.len(),
                k == store_keys(parameter_stores@),
                forall|a: int, b: int| 0 <= a < b < j ==> k[a] != k[b],
            decreases parameter_stores@.len() - j,
        {
            let mut i: usize = 0;
            while i < j
                invariant
                    i <= j < parameter_stores@.len(),
                    k == store_keys(parameter_stores@),
                    forall|a: int, b: int| 0 <= a < b < j ==> k[a] != k[b],
                    forall|a: int| 0 <= a < i ==> k[a] != k[j as int],
                decreases j - i,
            {
                if parameter_stores[i].key().same(parameter_stores[j].key()) {
                    assert(k[i as int] == k[j as int]);
                    return Err(Error::UnexpectedDuplicate);
                }
                i = i + 1;
            }
            j = j + 1;
        }
        let l = Library::from_builder(key, streamlets)?;
        let Library { key, parameter_stores: _, streamlets } = l;
        Ok(Library { key, parameter_stores, streamlets })
    }

    /// A library of the given streamlets; fails when two share a name.
    pub fn from_builder(key: Name, streamlets: Vec<Streamlet>) -> (r: Result<Library>)
        ensures
            !has_duplicate_streamlet(streamlet_models(streamlets@)) ==> (r matches Ok(l)
                && l.key_of() == key@ && l.entries() == streamlet_models(streamlets@)
                && l.store_keys_of().len() == 0),
            has_duplicate_streamlet(streamlet_models(streamlets@)) ==> (r matches Err(Error::UnexpectedDuplicate)),
    {
        let ghost m = streamlet_models(streamlets@);
        let mut j: usize = 0;
        while j < streamlets.len()
            invariant
                j <= streamlets@.len(),
                m == streamlet_models(streamlets@),
                forall|a: int, b: int| 0 <= a < b < j ==> m[a].name != m[b].name,
            decreases streamlets@.len() - j,
        {
            let mut i: usize = 0;
            while i < j
                invariant
                    i <= j < streamlets@.len(),
                    m == streamlet_models(streamlets@),
                    forall|a: int, b: int| 0 <= a < b < j ==> m[a].name != m[b].name,
                    forall|a: int| 0 <= a < i ==> m[a].name != m[j as int].name,
                decreases j - i,
            {
                if streamlets[i].key().same(streamlets[j].key()) {
                    assert(m[i as int].name == m[j as int].name);
                    return Err(Error::UnexpectedDuplicate);
                }
                i = i + 1;
            }
            j = j + 1;
        }
        let l = Library { key, parameter_stores: Vec::new(), streamlets };
        assert(store_keys(l.parameter_stores@) =~= Seq::empty());
        Ok(l)
    }

    /// The library that a streamlet definition file makes: its streamlets,
    /// read as far as they go, under the name of the file; fails where that
    /// name breaks a naming rule or two streamlets share a name.
    pub fn from_sdf(file_stem: &str, contents: &str) -> (r: Result<Library>)
        ensures
            !is_valid_name(file_stem@) ==> (r matches Err(Error::InvalidArgument(m)) && m@ == name_refusal(file_stem@)),
            is_valid_name(file_stem@) && has_duplicate_streamlet(p_streamlet_list(contents@).0)
                ==> (r matches Err(Error::UnexpectedDuplicate)),
            is_valid_name(file_stem@) && !has_duplicate_streamlet(p_streamlet_list(contents@).0)
                ==> (r matches Ok(l) && l.key_of() == file_stem@ && l.entries() == p_streamlet_list(contents@).0),
    {
        let streamlets = match list_of_streamlets(contents) {
            Ok((_, v)) => v,
            Err(_) => Vec::new(),
        };
        let key = Name::try_new(file_stem)?;
        Library::from_builder(key, streamlets)
    }

    /// The key of the library.
    pub fn key(&self) -> (k: &Name)
        ensures
            k@ == self.key_of(),
    {
        &self.key
    }

    /// The streamlets of the library.
    pub fn streamlets(&self) -> (v: &Vec<Streamlet>)
        ensures
            streamlet_models(v@) == self.entries(),
    {
        &self.streamlets
    }

    /// Adds a streamlet; fails with a `ProjectError` where its name is
    /// taken.
    #[verifier::loop_isolation(false)]
    pub fn add_streamlet(&mut self, streamlet: Streamlet) -> (r: Result<StreamletHandle>)
        ensures
            (exists|i: int| 0 <= i < old(self).entries().len() && old(self).entries()[i].name == streamlet@.name) ==> (
                r matches Err(Error::ProjectError(m))
                && m@ == "Error while adding "@ + streamlet@.name + " to the library"@
                && final(self).entries() == old(self).entries()),
            !(exists|i: int| 0 <= i < old(self).entries().len() && old(self).entries()[i].name == streamlet@.name) ==> (
                r matches Ok(h) && h.lib@ == old(self).key_of() && h.streamlet@ == streamlet@.name
                && final(self).entries() == old(self).entries().push(streamlet@)),
            final(self).key_of() == old(self).key_of(),
    {
        proof { use_type_invariant(&*self); }
        let ghost m = streamlet_models(self.streamlets@);
        let mut i: usize = 0;
        while i < self.streamlets.len()
            invariant
                i <= self.streamlets@.len(),
                m == streamlet_models(self.streamlets@),
                forall|a: int| 0 <= a < i ==> m[a].name != streamlet@.name,
            decreases self.streamlets@.len() - i,
        {
            if self.streamlets[i].key().same(streamlet.key()) {
                assert(old(self).entries()[i as int].name == streamlet@.name);
                let mut t = String::from_str("Error while adding ");
                t.append(streamlet.identifier());
                t.append(" to the library");
                return Err(Error::ProjectError(t));
            }
            i = i + 1;
        }
        let h = StreamletHandle { lib: self.key.duplicate(), streamlet: streamlet.key().duplicate() };
        let ghost before = self.streamlets@;
        proof {
            assert(streamlet_models(before.push(streamlet)) =~= streamlet_models(before).push(streamlet@));
            assert(!has_duplicate_streamlet(streamlet_models(before.push(streamlet)))) by {
                let ks = streamlet_models(before.push(streamlet));
                if has_duplicate_streamlet(ks) {
                    let (a, b) = choose|a: int, b: int| 0 <= a < b < ks.len() && #[trigger] ks[a].name == #[trigger] ks[b].name;
                    if b == before.len() {
                        assert(m[a].name == streamlet@.name);
                    } else {
                        assert(m[a].name == m[b].name);
                    }
                }
            }
        }
        let mut v: Vec<Streamlet> = Vec::new();
        std::mem::swap(&mut v, &mut self.streamlets);
        v.push(streamlet);
        self.streamlets = v;
        Ok(h)
    }

    /// The streamlet with a name; fails with a `ProjectError` where there is
    /// none.
    pub fn get_streamlet(&self, key: &Name) -> (r: Result<&Streamlet>)
        ensures
            (exists|i: int| 0 <= i < self.entries().len() && self.entries()[i].name == key@) ==> (r matches Ok(s)
                && s@.name == key@ && forall|i: int| 0 <= i < self.entries().len() && self.entries()[i].name == key@
                    ==> self.entries()[i] == s@),
            !(exists|i: int| 0 <= i < self.entries().len() && self.entries()[i].name == key@) ==> (
                r matches Err(Error::ProjectError(m))
                && m@ == "Streamlet "@ + key@ + " not found in library "@ + self.key_of()),
    {
        let ghost m = streamlet_models(self.streamlets@);
        let mut i: usize = 0;
        while i < self.streamlets.len()
            invariant
                i <= self.streamlets@.len(),
                m == streamlet_models(self.streamlets@),
                forall|a: int| 0 <= a < i ==> m[a].name != key@,
            decreases self.streamlets@.len() - i,
        {
            if self.streamlets[i].key().same(key) {
                assert(m[i as int] == self.streamlets@[i as int]@);
                proof {
                    use_type_invariant(self);
                    assert forall|a: int| 0 <= a < m.len() && m[a].name == key@ implies m[a] == m[i as int] by {
                        if a != i {
                            assert(has_duplicate_streamlet(m));
                        }
                    }
                }
                return Ok(&self.streamlets[i]);
            }
            i = i + 1;
        }
        let mut t = String::from_str("Streamlet ");
        t.append(key.as_str());
        t.append(" not found in library ");
        t.append(self.key.as_str());
        Err(Error::ProjectError(t))
    }
}

/// Whether two of the libraries share a key.
pub open spec fn has_duplicate_library(s: Seq<Seq<char>>) -> bool {
    exists|i: int, j: int| 0 <= i < j < s.len() && #[trigger] s[i] == #[trigger] s[j]
}

/// The keys of libraries.
pub open spec fn library_keys(s: Seq<Library>) -> Seq<Seq<char>> {
    s.map_values(|l: Library| l.key_of())
}

/// A named project of libraries with distinct keys.
///
/// The entries are kept in a `Vec` in the order they were added, with a
/// type invariant that their keys do not repeat: a `HashMap` keyed by
/// text would give Verus nothing it can prove of a lookup, and its order
/// of iteration is not fixed.
#[derive(Debug, PartialEq)]
pub struct Project {
    name: Name,
    libraries: Vec<Library>,
}

/// The text with which a project refers to a missing library.
pub open spec fn missing_library_message(k: Seq<char>) -> Seq<char> {
    "Error while retrieving Name("@ + seq![QUOTE] + k + seq![QUOTE] + "), it does not exist in project."@
}

impl Project {
    /// The keys do not repeat.
    #[verifier::type_invariant]
    spec fn keys_unique(self) -> bool {
        !has_duplicate_library(library_keys(self.libraries@))
    }

    /// The name of the project.
    pub closed spec fn name_of(&self) -> Seq<char> {
        self.name@
    }

    /// The libraries of the project, in their order.
    pub closed spec fn entries(&self) -> Seq<Library> {
        self.libraries@
    }

    /// An empty project.
    pub fn new(name: Name) -> (p: Project)
        ensures
            p.name_of() == name@,
            p.entries().len() == 0,
    {
        let p = Project { name, libraries: Vec::new() };
        assert(library_keys(p.libraries@) =~= Seq::empty());
        p
    }

    /// A project of the given libraries; fails when two share a key.
    pub fn from_builder(name: Name, libraries: Vec<Library>) -> (r: Result<Project>)
        ensures
            !has_duplicate_library(library_keys(libraries@)) ==> (r matches Ok(p)
                && p.name_of() == name@ && p.entries() == libraries@),
            has_duplicate_library(library_keys(libraries@)) ==> (r matches Err(Error::UnexpectedDuplicate)),
    {
        let ghost keys = library_keys(libraries@);
        let mut j: usize = 0;
        while j < libraries.len()
            invariant
                j <= libraries@.len(),
                keys == library_keys(libraries@),
                forall|a: int, b: int| 0 <= a < b < j ==> keys[a] != keys[b],
            decreases libraries@.len() - j,
        {
            let mut i: usize = 0;
            while i < j
                invariant
                    i <= j < libraries@.len(),
                    keys == library_keys(libraries@),
                    forall|a: int, b: int| 0 <= a < b < j ==> keys[a] != keys[b],
                    forall|a: int| 0 <= a < i ==> keys[a] != keys[j as int],
                decreases j - i,
            {
                if libraries[i].key().same(libraries[j].key()) {
                    assert(keys[i as int] == keys[j as int]);
                    return Err(Error::UnexpectedDuplicate);
                }
                i = i + 1;
            }
            j = j + 1;
        }
        Ok(Project { name, libraries })
    }

    /// The name of the project.
    pub fn identifier(&self) -> (s: &str)
        ensures
            s@ == self.name_of(),
    {
        self.name.as_str()
    }

    /// The libraries of the project.
    pub fn libraries(&self) -> (v: &Vec<Library>)
        ensures
            v@ == self.entries(),
    {
        &self.libraries
    }

    /// Adds a library; fails with a `ProjectError` where its key is taken.
    #[verifier::loop_isolation(false)]
    pub fn add_lib(&mut self, lib: Library) -> (r: Result<Name>)
        ensures
            (exists|i: int| 0 <= i < old(self).entries().len() && old(self).entries()[i].key_of() == lib.key_of()) ==> (
                r matches Err(Error::ProjectError(m))
                && m@ == "Error while adding "@ + lib.key_of() + " to the project"@
                && final(self).entries() == old(self).entries()),
            !(exists|i: int| 0 <= i < old(self).entries().len() && old(self).entries()[i].key_of() == lib.key_of()) ==> (
                r matches Ok(k) && k@ == lib.key_of() && final(self).entries() == old(self).entries().push(lib)),
            final(self).name_of() == old(self).name_of(),
    {
        proof { use_type_invariant(&*self); }
        let mut i: usize = 0;
        while i < self.libraries.len()
            invariant
                i <= self.libraries@.len(),
                forall|a: int| 0 <= a < i ==> self.libraries@[a].key_of() != lib.key_of(),
            decreases self.libraries@.len() - i,
        {
            if self.libraries[i].key().same(lib.key()) {
                assert(old(self).entries()[i as int].key_of() == lib.key_of());
                let mut t = String::from_str("Error while adding ");
                t.append(lib.key().as_str());
                t.append(" to the project");
                return Err(Error::ProjectError(t));
            }
            i = i + 1;
        }
        let k = lib.key().duplicate();
        let ghost before = self.libraries@;
        proof {
            assert(library_keys(before.push(lib)) =~= library_keys(before).push(lib.key_of()));
            assert(!has_duplicate_library(library_keys(before.push(lib)))) by {
                let ks = library_keys(before.push(lib));
                if has_duplicate_library(ks) {
                    let (a, b) = choose|a: int, b: int| 0 <= a < b < ks.len() && #[trigger] ks[a] == #[trigger] ks[b];
                    if b == before.len() {
                        assert(before[a].key_of() == lib.key_of());
                    } else {
                        assert(library_keys(before)[a] == library_keys(before)[b]);
                    }
                }
            }
        }
        let mut v: Vec<Library> = Vec::new();
        std::mem::swap(&mut v, &mut self.libraries);
        v.push(lib);
        self.libraries = v;
        Ok(k)
    }

    /// The library with a key; fails with a `ProjectError` where there is
    /// none.
    pub fn get_lib(&self, key: &Name) -> (r: Result<&Library>)
        ensures
            (exists|i: int| 0 <= i < self.entries().len() && self.entries()[i].key_of() == key@) ==> (r matches Ok(l)
                && l.key_of() == key@ && forall|i: int| 0 <= i < self.entries().len() && self.entries()[i].key_of() == key@
                    ==> self.entries()[i] == *l),
            !(exists|i: int| 0 <= i < self.entries().len() && self.entries()[i].key_of() == key@) ==> (
                r matches Err(Error::ProjectError(m)) && m@ == missing_library_message(key@)),
    {
        let mut i: usize = 0;
        while i < self.libraries.len()
            invariant
                i <= self.libraries@.len(),
                forall|a: int| 0 <= a < i ==> self.libraries@[a].key_of() != key@,
            decreases self.libraries@.len() - i,
        {
            if self.libraries[i].key().same(key) {
                assert(self.entries()[i as int].key_of() == key@);
                proof {
                    use_type_invariant(self);
                    assert forall|a: int| 0 <= a < self.libraries@.len() && self.libraries@[a].key_of() == key@
                        implies self.libraries@[a] == self.libraries@[i as int] by {
                        if a != i {
                            assert(library_keys(self.libraries@)[a] == library_keys(self.libraries@)[i as int]);
                            assert(has_duplicate_library(library_keys(self.libraries@)));
                        }
                    }
                }
                return Ok(&self.libraries[i]);
            }
            i = i + 1;
        }
        let mut t = String::from_str("Error while retrieving Name(");
        push_char(&mut t, QUOTE);
        t.append(key.as_str());
        push_char(&mut t, QUOTE);
        t.append("), it does not exist in project.");
        assert(t@ =~= missing_library_message(key@));
        Err(Error::ProjectError(t))
    }

    /// The streamlet that a handle refers to; fails with a `ProjectError`
    /// where its library or the streamlet is missing.
    pub fn get_streamlet(&self, handle: &StreamletHandle) -> (r: Result<&Streamlet>)
        ensures
            has_streamlet(self.entries(), handle.lib@, handle.streamlet@) ==> (r matches Ok(s)
                && s@.name == handle.streamlet@
                && forall|i: int, j: int| 0 <= i < self.entries().len() && self.entries()[i].key_of() == handle.lib@
                    && 0 <= j < self.entries()[i].entries().len() && self.entries()[i].entries()[j].name == handle.streamlet@
                    ==> self.entries()[i].entries()[j] == s@),
            has_library(self.entries(), handle.lib@) && !has_streamlet(self.entries(), handle.lib@, handle.streamlet@) ==> (
                r matches Err(Error::ProjectError(m))
                && m@ == "Streamlet "@ + handle.streamlet@ + " not found in library "@ + handle.lib@),
            !has_library(self.entries(), handle.lib@) ==> (
                r matches Err(Error::ProjectError(m)) && m@ == missing_library_message(handle.lib@)),
    {
        let lib = self.get_lib(&handle.lib)?;
        let s = lib.get_streamlet(&handle.streamlet)?;
        Ok(s)
    }
}

/// Whether a library has a key.
pub open spec fn has_library(libs: Seq<Library>, lib: Seq<char>) -> bool {
    exists|i: int| 0 <= i < libs.len() && libs[i].key_of() == lib
}

/// Whether the library with a key has a streamlet with a name.
pub open spec fn has_streamlet(libs: Seq<Library>, lib: Seq<char>, name: Seq<char>) -> bool {
    exists|i: int, j: int| 0 <= i < libs.len() && libs[i].key_of() == lib
        && 0 <= j < libs[i].entries().len() && #[trigger] libs[i].entries()[j].name == name
}

} // verus!
