//! An in-memory virtual filesystem: a tree of files and directories held in
//! process memory, addressed by slash-separated paths, with every operation
//! verified against a mathematical model of the tree.

use vstd::prelude::*;

pub mod path;
pub mod memory;
pub mod harness;
pub mod laws;

verus! {

} // verus!
