//! Tydi physical streams: complexity levels, bit-field trees and flow
//! directions.

use vstd::prelude::*;
use crate::error::{Error, Result};

verus! {

/// `Some(s@)` for `Some(s)`.
pub open spec fn opt_view(o: Option<String>) -> Option<Seq<char>> {
    match o {
        Some(s) => Some(s@),
        None => None,
    }
}

/// A copy of an optional string.
pub fn copy_opt_string(o: &Option<String>) -> (r: Option<String>)
    ensures
        opt_view(r) == opt_view(*o),
{
    match o {
        Some(s) => Some(s.clone()),
        None => None,
    }
}

/// Tydi stream interface complexity level: a non-empty list of numbers, the
/// major level first.
#[derive(Debug, Clone, PartialEq)]
pub struct Complexity {
    num: Vec<usize>,
}

impl View for Complexity {
    type V = Seq<usize>;

    closed spec fn view(&self) -> Seq<usize> {
        self.num@
    }
}

impl Complexity {
    /// The complexity with only a major level.
    pub fn new_major(num: usize) -> (c: Self)
        ensures
            c@ == seq![num],
    {
        Complexity { num: vec![num] }
    }

    /// The complexity with the given levels, major first; fails when there
    /// is no level.
    pub fn new(levels: Vec<usize>) -> (r: Result<Self>)
        ensures
            levels@.len() > 0 ==> (r matches Ok(c) && c@ == levels@),
            levels@.len() == 0 ==> (r matches Err(Error::InvalidArgument(m))
                && m@ == "complexity level cannot be empty"@),
    {
        if levels.len() == 0 {
            Err(Error::InvalidArgument(String::from_str("complexity level cannot be empty")))
        } else {
            Ok(Complexity { num: levels })
        }
    }

    /// The lowest complexity, level 0.
    pub fn default_level() -> (c: Self)
        ensures
            c@ == seq![0usize],
    {
        Complexity { num: vec![0] }
    }

    /// The major level: the first number, 0 when there is none.
    pub fn major(&self) -> (m: usize)
        ensures
            self@.len() > 0 ==> m == self@[0],
            self@.len() == 0 ==> m == 0,
    {
        if self.num.len() > 0 { self.num[0] } else { 0 }
    }

    /// The levels, major first.
    pub fn levels(&self) -> (l: &Vec<usize>)
        ensures
            l@ == self@,
    {
        &self.num
    }

    /// A copy of this complexity.
    pub fn duplicate(&self) -> (c: Self)
        ensures
            c@ == self@,
    {
        Complexity { num: self.num.clone() }
    }
}

/// The level at a position, where missing levels count as zero.
pub open spec fn level_at(c: Seq<usize>, i: int) -> int {
    if 0 <= i < c.len() { c[i] as int } else { 0 }
}

/// Whether one complexity is lower than another: at the first position
/// where their levels differ, the first has the lower level, missing
/// levels counting as zero.
pub open spec fn complexity_lower(a: Seq<usize>, b: Seq<usize>) -> bool {
    exists|k: int| 0 <= k && #[trigger] level_at(a, k) < level_at(b, k)
        && forall|j: int| 0 <= j < k ==> #[trigger] level_at(a, j) == level_at(b, j)
}

impl Complexity {
    /// Whether this complexity is lower than another.
    pub fn is_lower_than(&self, other: &Complexity) -> (b: bool)
        ensures
            b == complexity_lower(self@, other@),
    {
        let n = if self.num.len() > other.num.len() { self.num.len() } else { other.num.len() };
        let mut i: usize = 0;
        while i < n
            invariant
                i <= n,
                n == self@.len() || n == other@.len(),
                n >= self@.len(),
                n >= other@.len(),
                forall|j: int| 0 <= j < i ==> #[trigger] level_at(self@, j) == level_at(other@, j),
            decreases n - i,
        {
            let x = if i < self.num.len() { self.num[i] } else { 0 };
            let y = if i < other.num.len() { other.num[i] } else { 0 };
            assert(x == level_at(self@, i as int) && y == level_at(other@, i as int));
            if x < y {
                return true;
            }
            if x > y {
                assert forall|k: int| 0 <= k && #[trigger] level_at(self@, k) < level_at(other@, k) implies
                    !(forall|j: int| 0 <= j < k ==> #[trigger] level_at(self@, j) == level_at(other@, j)) by {
                    if k > i {
                        assert(level_at(self@, i as int) != level_at(other@, i as int));
                    }
                }
                return false;
            }
            i = i + 1;
        }
        assert forall|k: int| 0 <= k && #[trigger] level_at(self@, k) < level_at(other@, k) implies
            !(forall|j: int| 0 <= j < k ==> #[trigger] level_at(self@, j) == level_at(other@, j)) by {
            if k < n {
                assert(level_at(self@, k) == level_at(other@, k));
            }
        }
        false
    }

    /// Whether two complexities have the same levels.
    pub fn same(&self, other: &Complexity) -> (b: bool)
        ensures
            b == (self@ == other@),
    {
        if self.num.len() != other.num.len() {
            return false;
        }
        let mut i: usize = 0;
        while i < self.num.len()
            invariant
                i <= self@.len(),
                self@.len() == other@.len(),
                forall|j: int| 0 <= j < i ==> self@[j] == other@[j],
            decreases self@.len() - i,
        {
            if self.num[i] != other.num[i] {
                return false;
            }
            i = i + 1;
        }
        assert(self@ =~= other@);
        true
    }
}

impl Default for Complexity {
    fn default() -> (c: Self)
        ensures
            c@ == seq![0usize],
    {
        Complexity { num: vec![0] }
    }
}

/// Element bit field.
#[derive(Debug, PartialEq)]
pub struct BitField {
    /// Identifier of this bit field.
    pub identifier: Option<String>,
    /// Number of bits in the bit field.
    pub width: usize,
    /// Potential child fields.
    pub children: Vec<BitField>,
}

/// The mathematical shape of a bit field tree.
pub struct BitFieldModel {
    pub identifier: Option<Seq<char>>,
    pub width: nat,
    pub children: Seq<BitFieldModel>,
}

/// The model of a bit field tree.
pub open spec fn bf_model(b: BitField) -> BitFieldModel
    decreases b,
{
    BitFieldModel {
        identifier: opt_view(b.identifier),
        width: b.width as nat,
        children: bf_models(b.children@),
    }
}

/// The models of a sequence of bit field trees.
pub open spec fn bf_models(s: Seq<BitField>) -> Seq<BitFieldModel>
    decreases s,
{
    if s.len() == 0 {
        seq![]
    } else {
        bf_models(s.drop_last()).push(bf_model(s.last()))
    }
}

/// The sum of the widths of all fields in a tree.
pub open spec fn tree_width(b: BitField) -> nat
    decreases b,
{
    b.width as nat + trees_width(b.children@)
}

/// The sum of the tree widths of a sequence of trees.
pub open spec fn trees_width(s: Seq<BitField>) -> nat
    decreases s,
{
    if s.len() == 0 {
        0
    } else {
        trees_width(s.drop_last()) + tree_width(s.last())
    }
}

/// A prefix of a sequence of trees is no wider than the whole.
pub proof fn lemma_trees_width_prefix(s: Seq<BitField>, i: int)
    requires
        0 <= i <= s.len(),
    ensures
        trees_width(s.take(i)) <= trees_width(s),
    decreases s.len() - i,
{
    if i < s.len() {
        lemma_trees_width_prefix(s, i + 1);
        assert(s.take(i + 1).drop_last() =~= s.take(i));
        assert(s.take(i + 1).last() == s[i]);
    } else {
        assert(s.take(i) =~= s);
    }
}

impl BitField {
    /// Return the width of the sum of all bit fields in the bit field tree.
    pub fn width_recursive(&self) -> (w: usize)
        requires
            tree_width(*self) <= usize::MAX,
        ensures
            w == tree_width(*self),
        decreases *self,
    {
        let mut c: usize = 0;
        let mut i: usize = 0;
        while i < self.children.len()
            invariant
                i <= self.children@.len(),
                c == trees_width(self.children@.take(i as int)),
                self.width + trees_width(self.children@) <= usize::MAX,
            decreases self.children@.len() - i,
        {
            proof {
                lemma_trees_width_prefix(self.children@, i + 1);
                assert(self.children@.take(i + 1).drop_last() =~= self.children@.take(i as int));
                assert(self.children@.take(i + 1).last() == self.children@[i as int]);
            }
            let w = self.children[i].width_recursive();
            c = c + w;
            i = i + 1;
        }
        assert(self.children@.take(self.children@.len() as int) =~= self.children@);
        self.width + c
    }

    /// Return the width of only this bit field.
    pub fn width(&self) -> (w: usize)
        ensures
            w == self.width,
    {
        self.width
    }

    /// Return a new, empty bit field.
    pub fn new_empty() -> (b: BitField)
        ensures
            b.identifier is None,
            b.width == 0,
            b.children@.len() == 0,
    {
        BitField { identifier: None, width: 0, children: vec![] }
    }

    /// Return a new, childless bit field with only a width.
    pub fn new(identifier: Option<String>, width: usize) -> (b: BitField)
        ensures
            opt_view(b.identifier) == opt_view(identifier),
            b.width == width,
            b.children@.len() == 0,
    {
        BitField { identifier, width, children: vec![] }
    }
}

/// A direction of flow.
#[derive(Copy, Clone, Debug, PartialEq, Eq, Structural)]
pub enum Dir {
    /// From source to sink.
    Downstream,
    /// From sink to source.
    Upstream,
}

/// The opposite direction.
pub open spec fn dir_flip(d: Dir) -> Dir {
    match d {
        Dir::Downstream => Dir::Upstream,
        Dir::Upstream => Dir::Downstream,
    }
}

impl Dir {
    /// Obtain the reversed direction.
    pub fn reversed(self) -> (r: Self)
        ensures
            r == dir_flip(self),
    {
        match self {
            Dir::Downstream => Dir::Upstream,
            Dir::Upstream => Dir::Downstream,
        }
    }

    /// In-place reverse.
    pub fn reverse(&mut self)
        ensures
            *final(self) == dir_flip(*old(self)),
    {
        *self = self.reversed();
    }
}

/// Reversing twice gives back the direction.
pub proof fn lemma_dir_flip_involutive(d: Dir)
    ensures
        dir_flip(dir_flip(d)) == d,
{
}

/// A Tydi physical stream.
#[derive(Debug)]
pub struct Stream {
    /// Name parts of the physical stream, outermost first.
    pub name_parts: Vec<String>,
    /// Tree of bit fields contained within the elements of the physical stream.
    pub fields: BitField,
    /// The number of elements moved per transfer.
    pub elements_per_transfer: usize,
    /// The dimensionality, i.e. nesting level, of the elements.
    pub dimensionality: usize,
    /// Direction of the physical stream.
    pub dir: Dir,
    /// Complexity level of the physical stream.
    pub complexity: Complexity,
}

} // verus!
