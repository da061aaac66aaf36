//! Tydi: typed streams over hardware interfaces, with their grammar,
//! their bit-level layouts and the design structures built from them.

pub mod data;
pub mod decimal;
pub mod chisel;
pub mod design;
pub mod dot;
pub mod error;
pub mod graph;
pub mod hdl;
pub mod implementation;
pub mod library;
pub mod logical;
pub mod name;
pub mod packages;
pub mod phys;
pub mod physical;
pub mod refs;
pub mod river;
pub mod scan;
pub mod split;
pub mod sdf;
pub mod store;
pub mod structural;
pub mod text;
pub mod util;
pub mod vhdl;

use vstd::prelude::*;

verus! {

} // verus!
