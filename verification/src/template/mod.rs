//! The data of the index page.

use vstd::prelude::*;

verus! {

/// What the index page shows: the video files and the folder they are in.
pub struct IndexTemplate<'a> {
    pub video_files: &'a Vec<String>,
    pub video_source: &'a String,
}

} // verus!
