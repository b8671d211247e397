use vstd::prelude::*;

pub mod block_tree;
pub mod types;

verus! {

} // verus!
