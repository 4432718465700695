//! A verified model of a Yoga-compatible layout node library.
//!
//! The library keeps the Yoga node tree, the style of every node and the
//! rules that turn Yoga's integer codes and edge values into layout input.
//! Numeric style values are carried as IEEE-754 single-precision bit patterns.
use vstd::prelude::*;

pub mod codes;
pub mod values;
pub mod edges;
pub mod style;
pub mod tree;
pub mod node_style;
pub mod layout_plan;
pub mod placement;
pub mod laws;

verus! {

} // verus!
