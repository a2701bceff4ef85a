use vstd::prelude::*;

use crate::model::git::{Commit, DiffStatus};

verus! {

/// The status of one file in the working copy and the index.
#[derive(Clone, Debug, PartialEq, Eq)]
pub struct IndexStatus {
    /// The file path this status applies to.
    pub path: String,
    /// The status of this file in the working copy.
    pub workdir_status: DiffStatus,
    /// The status of this file in the index/staging area.
    pub index_status: DiffStatus,
    /// Denotes whether the file is currently staged in any form.
    pub is_staged: bool,
    /// Denotes whether the file is currently in conflict due to a broken
    /// merge.
    pub is_conflicted: bool,
}

/// Information about a rebase that is currently in progress.
#[derive(Clone, Debug, PartialEq, Eq)]
pub struct RebaseStatusInfo {
    /// The current patch that causes a conflict during the rebase.
    pub patch: String,
    /// The current message of the commit that caused the conflict.
    pub message: String,
}

/// Information about a specific conflict.
#[derive(Clone, Debug, PartialEq, Eq)]
pub struct FileConflict {
    pub file: IndexStatus,
    pub ours: Commit,
    pub theirs: Commit,
}

/// Which side wins when resolving a conflict wholesale.
#[derive(Clone, Debug, PartialEq, Eq)]
pub enum ConflictResolution {
    Ours,
    Theirs,
}

} // verus!
