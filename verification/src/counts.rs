use vstd::prelude::*;

verus! {

/// The tallies of one source: its display name and the four counts.
///
/// An instance starts with every count at zero and is filled by the scanning
/// functions; once a source has been scanned completely it is only read.
pub struct FileCount {
    pub filename: String,
    pub w_count: i32,
    pub c_count: i32,
    pub l_count: i32,
    pub b_count: i32,
}

impl FileCount {
    /// A well-formed tally holds no negative count.
    pub open spec fn wf(self) -> bool {
        &&& self.w_count >= 0
        &&& self.c_count >= 0
        &&& self.l_count >= 0
        &&& self.b_count >= 0
    }

    /// Builds a tally with the given name and counts.
    pub fn new(filename: &str, w_count: i32, c_count: i32, l_count: i32, b_count: i32) -> (r:
        FileCount)
        ensures
            r.filename@ == filename@,
            r.w_count == w_count,
            r.c_count == c_count,
            r.l_count == l_count,
            r.b_count == b_count,
    {
        FileCount { filename: filename.to_owned(), w_count, c_count, l_count, b_count }
    }
}

} // verus!
