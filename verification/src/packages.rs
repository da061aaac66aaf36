//! Declaring the record types of a package once each, in the order in
//! which its components use them, for either back-end.

use vstd::prelude::*;
use crate::chisel::{chisel_id, chisel_id_of, chisel_type_decl, chisel_type_text};
use crate::hdl::{Type, TypeModel};
use crate::text::same_text;
use crate::vhdl::{splits_whole, type_decl, vhdl_id, vhdl_id_of, DeclareType};

verus! {

/// The language that a package is declared in.
#[derive(Debug, Clone, Copy, PartialEq, Eq, Structural)]
pub enum Dialect {
    Vhdl,
    Chisel,
}

/// The identifier under which a type is declared.
pub open spec fn dialect_id(d: Dialect, t: TypeModel) -> Seq<char> {
    match d {
        Dialect::Vhdl => vhdl_id(t),
        Dialect::Chisel => chisel_id(t),
    }
}

/// The declaration of a record type at the root of a package.
pub open spec fn dialect_decl(d: Dialect, t: TypeModel) -> Seq<char> {
    match d {
        Dialect::Vhdl => type_decl(t, true),
        Dialect::Chisel => chisel_type_decl(t),
    }
}

/// The shapes of types.
pub open spec fn type_models(v: Seq<Type>) -> Seq<TypeModel> {
    v.map_values(|t: Type| t@)
}

/// What declaring the components of a package has reached: the types
/// declared so far, the text so far, and the identifier of a type that
/// was met twice with different shapes, if any.
pub struct PackageState {
    pub declared: Seq<TypeModel>,
    pub text: Seq<char>,
    pub conflict: Option<Seq<char>>,
}

/// The state before any component.
pub open spec fn empty_state() -> PackageState {
    PackageState { declared: Seq::empty(), text: Seq::empty(), conflict: None }
}

/// The declared type with an identifier, if any.
pub open spec fn find_declared(d: Dialect, declared: Seq<TypeModel>, id: Seq<char>) -> Option<TypeModel>
    decreases declared.len(),
{
    if declared.len() == 0 {
        None
    } else if dialect_id(d, declared.last()) == id {
        Some(declared.last())
    } else {
        find_declared(d, declared.drop_last(), id)
    }
}

/// Declaring one record type: a new identifier is declared, the same type
/// again is passed over, another type under a known identifier is a
/// conflict; after a conflict nothing changes.
pub open spec fn add_type(d: Dialect, st: PackageState, t: TypeModel) -> PackageState {
    if st.conflict is Some {
        st
    } else {
        match find_declared(d, st.declared, dialect_id(d, t)) {
            None => PackageState {
                declared: st.declared.push(t),
                text: st.text + dialect_decl(d, t) + "\n\n"@,
                conflict: None,
            },
            Some(prev) => if prev == t {
                st
            } else {
                PackageState { conflict: Some(dialect_id(d, prev)), ..st }
            },
        }
    }
}

/// Declaring record types in order.
pub open spec fn add_types(d: Dialect, st: PackageState, ts: Seq<TypeModel>) -> PackageState
    decreases ts.len(),
{
    if ts.len() == 0 {
        st
    } else {
        add_type(d, add_types(d, st, ts.drop_last()), ts.last())
    }
}

/// After a conflict, declaring more types changes nothing.
pub proof fn lemma_add_types_stuck(d: Dialect, st: PackageState, ts: Seq<TypeModel>)
    requires
        st.conflict is Some,
    ensures
        add_types(d, st, ts) == st,
    decreases ts.len(),
{
    if ts.len() > 0 {
        lemma_add_types_stuck(d, st, ts.drop_last());
    }
}

/// A conflict met in a prefix of the types is the conflict of them all.
pub proof fn lemma_add_types_prefix(d: Dialect, st: PackageState, ts: Seq<TypeModel>, m: int)
    requires
        0 <= m <= ts.len(),
        add_types(d, st, ts.take(m)).conflict is Some,
    ensures
        add_types(d, st, ts) == add_types(d, st, ts.take(m)),
    decreases ts.len(),
{
    if m == ts.len() {
        assert(ts.take(m) =~= ts);
    } else {
        assert(ts.drop_last().take(m) =~= ts.take(m));
        lemma_add_types_prefix(d, st, ts.drop_last(), m);
    }
}

/// The identifier under which a type is declared.
pub fn dialect_id_of(d: Dialect, t: &Type) -> (s: String)
    ensures
        s@ == dialect_id(d, t@),
{
    match d {
        Dialect::Vhdl => vhdl_id_of(t),
        Dialect::Chisel => chisel_id_of(t),
    }
}

/// The position of the declared type with an identifier, if any.
pub fn find_declared_in(d: Dialect, declared: &Vec<Type>, id: &str) -> (r: Option<usize>)
    ensures
        match r {
            Some(k) => k < declared@.len() && find_declared(d, type_models(declared@), id@) == Some(declared@[k as int]@),
            None => find_declared(d, type_models(declared@), id@) is None,
        },
{
    let ghost dm = type_models(declared@);
    let mut i: usize = declared.len();
    assert(dm.take(i as int) =~= dm);
    while i > 0
        invariant
            i <= declared@.len(),
            dm == type_models(declared@),
            find_declared(d, dm, id@) == find_declared(d, dm.take(i as int), id@),
        decreases i,
    {
        let t = dialect_id_of(d, &declared[i - 1]);
        proof {
            assert(dm.take(i as int).last() == declared@[i - 1]@);
            assert(dm.take(i as int).drop_last() =~= dm.take(i - 1));
        }
        if same_text(t.as_str(), id) {
            return Some(i - 1);
        }
        i = i - 1;
    }
    None
}

/// Appends a type to a list of types.
pub fn push_type(v: &mut Vec<Type>, t: Type)
    ensures
        type_models(final(v)@) == type_models(old(v)@).push(t@),
{
    v.push(t);
    assert(type_models(v@) =~= type_models(old(v)@).push(t@));
}

/// Whether no two types share an identifier.
pub open spec fn ids_unique(d: Dialect, s: Seq<TypeModel>) -> bool {
    forall|i: int, j: int| 0 <= i < j < s.len() ==> dialect_id(d, #[trigger] s[i]) != dialect_id(d, #[trigger] s[j])
}

/// Where no declared type has an identifier, none is found under it.
proof fn lemma_find_declared_none(d: Dialect, declared: Seq<TypeModel>, id: Seq<char>)
    requires
        find_declared(d, declared, id) is None,
    ensures
        forall|i: int| 0 <= i < declared.len() ==> dialect_id(d, #[trigger] declared[i]) != id,
    decreases declared.len(),
{
    if declared.len() > 0 {
        lemma_find_declared_none(d, declared.drop_last(), id);
        assert forall|i: int| 0 <= i < declared.len() implies dialect_id(d, #[trigger] declared[i]) != id by {
            if i < declared.len() - 1 {
                assert(declared.drop_last()[i] == declared[i]);
            }
        }
    }
}

/// Declaring types never declares two under one identifier.
pub proof fn lemma_add_types_ids_unique(d: Dialect, st: PackageState, ts: Seq<TypeModel>)
    requires
        ids_unique(d, st.declared),
    ensures
        ids_unique(d, add_types(d, st, ts).declared),
    decreases ts.len(),
{
    if ts.len() > 0 {
        lemma_add_types_ids_unique(d, st, ts.drop_last());
        let prev = add_types(d, st, ts.drop_last());
        let t = ts.last();
        if prev.conflict is None && find_declared(d, prev.declared, dialect_id(d, t)) is None {
            lemma_find_declared_none(d, prev.declared, dialect_id(d, t));
            let nd = prev.declared.push(t);
            assert forall|i: int, j: int| 0 <= i < j < nd.len() implies dialect_id(d, #[trigger] nd[i]) != dialect_id(d, #[trigger] nd[j]) by {
                assert(nd[i] == prev.declared[i]);
                if j < prev.declared.len() {
                    assert(nd[j] == prev.declared[j]);
                }
            }
        }
    }
}

/// The declaration of a record type at the root of a package.
fn dialect_decl_of(d: Dialect, t: &Type) -> (s: String)
    requires
        d == Dialect::Vhdl ==> splits_whole(t@),
    ensures
        s@ == dialect_decl(d, t@),
{
    match d {
        Dialect::Vhdl => match t.declare(true) {
            Ok(x) => x,
            Err(_) => String::new(),
        },
        Dialect::Chisel => chisel_type_text(t),
    }
}

/// Declares the record types of one component after what is declared so
/// far: the declarations go to `s`, the types to `declared`; the result is
/// the message of a conflict, if one comes up.
pub fn declare_record_types(
    d: Dialect,
    recs: &Vec<Type>,
    declared: &mut Vec<Type>,
    s: &mut String,
    Ghost(st0): Ghost<PackageState>,
    Ghost(head): Ghost<Seq<char>>,
) -> (r: Option<String>)
    requires
        st0.conflict is None,
        st0.declared == type_models(old(declared)@),
        old(s)@ == head + st0.text,
        d == Dialect::Vhdl ==> forall|k: int| 0 <= k < recs@.len() ==> splits_whole(#[trigger] recs@[k]@),
    ensures
        match add_types(d, st0, type_models(recs@)).conflict {
            Some(id) => r matches Some(m) && m@ == "Type name conflict: "@ + id,
            None => r is None && add_types(d, st0, type_models(recs@)).declared == type_models(final(declared)@)
                && final(s)@ == head + add_types(d, st0, type_models(recs@)).text,
        },
{
    let ghost rts = type_models(recs@);
    assert(rts.take(0) =~= Seq::<TypeModel>::empty());
    let mut j: usize = 0;
    while j < recs.len()
        invariant
            j <= recs@.len(),
            rts == type_models(recs@),
            st0.conflict is None,
            d == Dialect::Vhdl ==> forall|k: int| 0 <= k < recs@.len() ==> splits_whole(#[trigger] recs@[k]@),
            add_types(d, st0, rts.take(j as int)).conflict is None,
            add_types(d, st0, rts.take(j as int)).declared == type_models(declared@),
            s@ == head + add_types(d, st0, rts.take(j as int)).text,
        decreases recs@.len() - j,
    {
        let r = &recs[j];
        proof {
            assert(rts.take(j + 1).drop_last() =~= rts.take(j as int));
            assert(rts.take(j + 1).last() == r@);
        }
        let id = dialect_id_of(d, r);
        match find_declared_in(d, declared, id.as_str()) {
            None => {
                push_type(declared, r.duplicate());
                let x = dialect_decl_of(d, r);
                s.append(x.as_str());
                s.append("\n\n");
            },
            Some(k) => {
                if !declared[k].same(r) {
                    let mut e = String::from_str("Type name conflict: ");
                    let pid = dialect_id_of(d, &declared[k]);
                    e.append(pid.as_str());
                    proof { lemma_add_types_prefix(d, st0, rts, j + 1); }
                    return Some(e);
                }
            },
        }
        j = j + 1;
    }
    assert(rts.take(recs@.len() as int) =~= rts);
    None
}

} // verus!
