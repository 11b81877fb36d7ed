use vstd::prelude::*;

verus! {

/// The body of a request that changes the videos folder.
pub struct SourcePayload {
    pub source: String,
}

} // verus!
