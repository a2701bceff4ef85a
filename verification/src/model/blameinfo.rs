use vstd::prelude::*;

use crate::model::git::TimeWithOffset;

verus! {

/// Information about a single block of lines penned by a specific author.
#[derive(Clone, Debug, PartialEq, Eq)]
pub struct BlameInfo {
    /// The OID of the commit the last change occurred in.
    pub oid: String,
    /// The short OID of the commit.
    pub short_oid: String,
    /// The author of the commit/those lines in the file.
    pub author: String,
    /// The email of the author.
    pub mail: String,
    /// The date of the commit that changed those lines.
    pub timestamp: TimeWithOffset,
    /// The message summary of the commit (i.e. the first line).
    pub summary: String,
    /// The lines belonging to this block in the file.
    pub content: Vec<String>,
}

} // verus!
