//! The Nil node: the sentinel that stands for "no scene" and "no
//! node". The arena keeps exactly one, at index 0.

use vstd::prelude::*;

verus! {

/// Constructor of references to the Nil sentinel.
pub struct NodeNil;

impl NodeNil {
    /// The Nil sentinel's index.
    pub fn new() -> (r: usize)
        ensures
            r == 0,
    {
        0
    }
}

} // verus!
