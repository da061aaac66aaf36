//! Validated names of design elements.

use vstd::prelude::*;
use crate::error::{Error, Result};
use crate::text::{chars_of, char_is_alnum, char_is_digit, is_alnum, is_digit};

verus! {

/// Whether `s` contains two consecutive underscores.
pub open spec fn has_double_underscore(s: Seq<char>) -> bool {
    exists|i: int| 0 <= i < s.len() - 1 && #[trigger] s[i] == '_' && s[i + 1] == '_'
}

/// Whether every character of `s` is an ASCII letter, digit or underscore.
pub open spec fn all_name_chars(s: Seq<char>) -> bool {
    forall|i: int| 0 <= i < s.len() ==> is_alnum(#[trigger] s[i]) || s[i] == '_'
}

/// The rules a name obeys: not empty, no leading digit, no leading or
/// trailing underscore, no double underscore, only letters, digits and
/// underscores.
pub open spec fn is_valid_name(s: Seq<char>) -> bool {
    &&& s.len() > 0
    &&& !is_digit(s[0])
    &&& s[0] != '_'
    &&& s[s.len() - 1] != '_'
    &&& !has_double_underscore(s)
    &&& all_name_chars(s)
}

/// The message with which a name is refused: the first rule that fails.
pub open spec fn name_refusal(s: Seq<char>) -> Seq<char> {
    if s.len() == 0 {
        "name cannot be empty"@
    } else if is_digit(s[0]) {
        "name cannot start with a digit"@
    } else if s[0] == '_' || s[s.len() - 1] == '_' {
        "name cannot start or end with an underscore"@
    } else if has_double_underscore(s) {
        "name cannot contain two or more consecutive underscores"@
    } else {
        "name must consist of letters, numbers, and/or underscores"@
    }
}

/// A name of a design element.
#[derive(Debug, Clone, PartialEq, Eq, Hash, PartialOrd, Ord)]
pub struct Name(String);

impl View for Name {
    type V = Seq<char>;

    closed spec fn view(&self) -> Seq<char> {
        self.0@
    }
}

/// The underscore-rule check, by position.
fn find_double_underscore(cs: &Vec<char>) -> (b: bool)
    ensures
        b == has_double_underscore(cs@),
{
    let mut i: usize = 0;
    while i < cs.len() && i + 1 < cs.len()
        invariant
            i <= cs@.len(),
            forall|j: int| 0 <= j < i && j < cs@.len() - 1 ==> !(#[trigger] cs@[j] == '_' && cs@[j + 1] == '_'),
        decreases cs@.len() - i,
    {
        if cs[i] == '_' && cs[i + 1] == '_' {
            return true;
        }
        i = i + 1;
    }
    false
}

fn all_chars_allowed(cs: &Vec<char>) -> (b: bool)
    ensures
        b == all_name_chars(cs@),
{
    let mut i: usize = 0;
    while i < cs.len()
        invariant
            i <= cs@.len(),
            forall|j: int| 0 <= j < i ==> is_alnum(#[trigger] cs@[j]) || cs@[j] == '_',
        decreases cs@.len() - i,
    {
        if !(char_is_alnum(cs[i]) || cs[i] == '_') {
            return false;
        }
        i = i + 1;
    }
    true
}

impl Name {
    /// Constructs a name; fails with `InvalidArgument` when the text breaks a
    /// naming rule.
    pub fn try_new(name: &str) -> (r: Result<Name>)
        ensures
            is_valid_name(name@) ==> (r matches Ok(n) && n@ == name@),
            !is_valid_name(name@) ==> (r matches Err(Error::InvalidArgument(m)) && m@ == name_refusal(name@)),
    {
        let cs = chars_of(name);
        if cs.len() == 0 {
            Err(Error::InvalidArgument(String::from_str("name cannot be empty")))
        } else if char_is_digit(cs[0]) {
            Err(Error::InvalidArgument(String::from_str("name cannot start with a digit")))
        } else if cs[0] == '_' || cs[cs.len() - 1] == '_' {
            Err(Error::InvalidArgument(String::from_str("name cannot start or end with an underscore")))
        } else if find_double_underscore(&cs) {
            Err(Error::InvalidArgument(String::from_str("name cannot contain two or more consecutive underscores")))
        } else if !all_chars_allowed(&cs) {
            Err(Error::InvalidArgument(String::from_str("name must consist of letters, numbers, and/or underscores")))
        } else {
            Ok(Name(String::from_str(name)))
        }
    }

    /// The text of this name.
    pub fn as_str(&self) -> (s: &str)
        ensures
            s@ == self@,
    {
        self.0.as_str()
    }

    /// Whether two names are the same.
    pub fn same(&self, other: &Name) -> (b: bool)
        ensures
            b == (self@ == other@),
    {
        self.0 == other.0
    }

    /// The key that stands for the implemented streamlet itself, reserved
    /// so that no instance takes it.
    pub fn this() -> (n: Name)
        ensures
            n@ == "this"@,
    {
        Name(String::from_str("this"))
    }

    /// A copy of this name.
    pub fn duplicate(&self) -> (n: Name)
        ensures
            n@ == self@,
    {
        Name(self.0.clone())
    }
}

} // verus!
