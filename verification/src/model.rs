pub mod blameinfo;
pub mod config;
pub mod git;
pub mod graph;
pub mod index;
pub mod remote;

use vstd::prelude::*;

verus! {

/// Information about an upstream branch.
#[derive(Clone, Debug, PartialEq, Eq)]
pub struct UpstreamInfo {
    /// The name of the remote this upstream is located at.
    pub remote_name: String,
    /// The ref name of the upstream branch.
    pub ref_name: String,
    /// Indicates that the upstream branch is no longer available, e.g. after
    /// being deleted remotely and purged on fetch.
    pub upstream_missing: bool,
    /// How many commits are on the local branch not found on the remote.
    pub ahead: usize,
    /// How many commits are on the remote branch, not found on the local.
    pub behind: usize,
}

/// Information about a single branch.
#[derive(Clone, Debug, PartialEq, Eq)]
pub struct BranchInfo {
    /// The ref name of the branch.
    pub ref_name: String,
    /// The OID of the current HEAD of that branch.
    pub head: String,
    /// The remote this branch belongs to, if any.
    pub remote: Option<String>,
    /// The branch is the currently checked out branch.
    pub current: bool,
    /// The upstream tracking branch, if any.
    pub upstream: Option<UpstreamInfo>,
    /// For remote branches: which local branch tracks this remote branch?
    pub tracked_by: Option<String>,
    /// True if the branch is a detached HEAD.
    pub is_detached: bool,
    /// The worktree directory this branch is checked out at.
    pub worktree: Option<String>,
    /// Indicates that this branch is checked out at the common path (i.e. the
    /// actual repository, not a worktree).
    pub is_on_common_path: bool,
}

} // verus!
