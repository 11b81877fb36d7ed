use vstd::prelude::*;

verus! {

/// The byte range `start..=end` of a file that one response carries, and its length.
pub struct ChunkDetails {
    pub size: u64,
    pub start: u64,
    pub end: u64,
}

} // verus!
