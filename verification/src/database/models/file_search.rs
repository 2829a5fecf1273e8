use vstd::prelude::*;

verus! {

/// A path found by a search.
pub struct FileSearch {
    pub path: String,
}

} // verus!
