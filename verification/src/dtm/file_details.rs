use vstd::prelude::*;

verus! {

/// A video file name split into its stem (`name`) and its extension (`ext`).
pub struct FileDetails {
    pub ext: String,
    pub name: String,
}

impl View for FileDetails {
    type V = (Seq<char>, Seq<char>);

    /// The extension and the stem.
    open spec fn view(&self) -> (Seq<char>, Seq<char>) {
        (self.ext@, self.name@)
    }
}

} // verus!
