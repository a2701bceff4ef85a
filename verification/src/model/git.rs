use vstd::prelude::*;

verus! {

/// A reference to a parent with short and full OID.
#[derive(Clone, Debug, PartialEq, Eq)]
pub struct ParentReference {
    pub oid: String,
    pub short_oid: String,
}

/// A point in time given as seconds since the epoch plus a UTC offset.
#[derive(Clone, Debug, PartialEq, Eq)]
pub struct TimeWithOffset {
    pub utc_seconds: i64,
    pub offset_seconds: i32,
}

/// An author or committer signature.
#[derive(Clone, Debug, PartialEq, Eq)]
pub struct GitPerson {
    pub name: String,
    pub email: String,
    pub timestamp: TimeWithOffset,
}

/// Access to the graph-relevant parts of a commit: its id and parent list.
pub trait GraphNodeData {
    fn oid(&self) -> &String;

    fn parents(&self) -> &Vec<ParentReference>;
}

/// Detailed information about a commit.
#[derive(Clone, Debug, PartialEq, Eq)]
pub struct FullCommitData {
    pub oid: String,
    pub short_oid: String,
    pub message: String,
    pub parents: Vec<ParentReference>,
    pub author: GitPerson,
    pub committer: GitPerson,
}

impl GraphNodeData for FullCommitData {
    fn oid(&self) -> &String {
        &self.oid
    }

    fn parents(&self) -> &Vec<ParentReference> {
        &self.parents
    }
}

/// Detailed information about a stash. Stashes are leaves in the displayed
/// graph: their parent list is deliberately left empty.
#[derive(Clone, Debug, PartialEq, Eq)]
pub struct StashData {
    pub ref_name: String,
    pub oid: String,
    pub short_oid: String,
    pub message: String,
    pub parents: Vec<ParentReference>,
    pub author: GitPerson,
}

/// A commit as displayed in the history: either a regular commit or a stash.
#[derive(Clone, Debug, PartialEq, Eq)]
pub enum Commit {
    Commit(FullCommitData),
    Stash(StashData),
}

/// The id of the commit, whichever variant it is.
pub open spec fn commit_oid(c: Commit) -> Seq<char> {
    match c {
        Commit::Commit(data) => data.oid@,
        Commit::Stash(stash) => stash.oid@,
    }
}

/// The parent ids of the commit in order, whichever variant it is.
pub open spec fn parent_oids(parents: Seq<ParentReference>) -> Seq<Seq<char>> {
    parents.map_values(|p: ParentReference| p.oid@)
}

/// The parent ids listed by the commit (empty for stashes by convention).
pub open spec fn commit_parent_oids(c: Commit) -> Seq<Seq<char>> {
    match c {
        Commit::Commit(data) => parent_oids(data.parents@),
        Commit::Stash(stash) => parent_oids(stash.parents@),
    }
}

impl Commit {
    /// The graph node data of a regular commit. Stashes carry no graph node
    /// data; callers separate them out before asking.
    pub fn as_graph_node(&self) -> (node: &FullCommitData)
        requires
            self is Commit,
        ensures
            *self == Commit::Commit(*node),
    {
        match self {
            Commit::Commit(data) => data,
            Commit::Stash(_) => vstd::pervasive::unreached(),
        }
    }

    /// The id of the commit, whichever variant it is.
    pub fn id(&self) -> (oid: &String)
        ensures
            oid@ == commit_oid(*self),
    {
        match self {
            Commit::Commit(data) => &data.oid,
            Commit::Stash(stash) => &stash.oid,
        }
    }

    /// The parent references of the commit, whichever variant it is.
    pub fn parent_refs(&self) -> (parents: &Vec<ParentReference>)
        ensures
            match *self {
                Commit::Commit(data) => *parents == data.parents,
                Commit::Stash(stash) => *parents == stash.parents,
            },
            parent_oids(parents@) == commit_parent_oids(*self),
    {
        match self {
            Commit::Commit(data) => &data.parents,
            Commit::Stash(stash) => &stash.parents,
        }
    }
}

impl ParentReference {
    /// An exact copy.
    pub fn duplicate(&self) -> (copy: ParentReference)
        ensures
            copy == *self,
    {
        ParentReference { oid: self.oid.clone(), short_oid: self.short_oid.clone() }
    }
}

impl GitPerson {
    /// An exact copy.
    pub fn duplicate(&self) -> (copy: GitPerson)
        ensures
            copy == *self,
    {
        GitPerson {
            name: self.name.clone(),
            email: self.email.clone(),
            timestamp: TimeWithOffset {
                utc_seconds: self.timestamp.utc_seconds,
                offset_seconds: self.timestamp.offset_seconds,
            },
        }
    }
}

/// An exact copy of a parent list.
pub fn duplicate_parents(parents: &Vec<ParentReference>) -> (copy: Vec<ParentReference>)
    ensures
        copy@ == parents@,
{
    let mut copy: Vec<ParentReference> = Vec::new();
    let mut i: usize = 0;
    while i < parents.len()
        invariant
            i <= parents@.len(),
            copy@ == parents@.subrange(0, i as int),
        decreases parents@.len() - i,
    {
        copy.push(parents[i].duplicate());
        proof {
            assert(copy@ =~= parents@.subrange(0, i + 1));
        }
        i += 1;
    }
    proof {
        assert(copy@ =~= parents@);
    }
    copy
}

/// Two commits hold the same data. (Equality up to the container values:
/// their parent vectors hold equal elements in equal order.)
pub open spec fn commit_equivalent(a: Commit, b: Commit) -> bool {
    match (a, b) {
        (Commit::Commit(x), Commit::Commit(y)) => {
            &&& x.oid == y.oid
            &&& x.short_oid == y.short_oid
            &&& x.message == y.message
            &&& x.parents@ == y.parents@
            &&& x.author == y.author
            &&& x.committer == y.committer
        },
        (Commit::Stash(x), Commit::Stash(y)) => {
            &&& x.ref_name == y.ref_name
            &&& x.oid == y.oid
            &&& x.short_oid == y.short_oid
            &&& x.message == y.message
            &&& x.parents@ == y.parents@
            &&& x.author == y.author
        },
        _ => false,
    }
}

impl FullCommitData {
    /// An exact copy.
    pub fn duplicate(&self) -> (copy: FullCommitData)
        ensures
            copy.oid == self.oid,
            copy.short_oid == self.short_oid,
            copy.message == self.message,
            copy.parents@ == self.parents@,
            copy.author == self.author,
            copy.committer == self.committer,
    {
        FullCommitData {
            oid: self.oid.clone(),
            short_oid: self.short_oid.clone(),
            message: self.message.clone(),
            parents: duplicate_parents(&self.parents),
            author: self.author.duplicate(),
            committer: self.committer.duplicate(),
        }
    }
}

impl StashData {
    /// An exact copy.
    pub fn duplicate(&self) -> (copy: StashData)
        ensures
            copy.ref_name == self.ref_name,
            copy.oid == self.oid,
            copy.short_oid == self.short_oid,
            copy.message == self.message,
            copy.parents@ == self.parents@,
            copy.author == self.author,
    {
        StashData {
            ref_name: self.ref_name.clone(),
            oid: self.oid.clone(),
            short_oid: self.short_oid.clone(),
            message: self.message.clone(),
            parents: duplicate_parents(&self.parents),
            author: self.author.duplicate(),
        }
    }
}

impl Commit {
    /// An exact copy.
    pub fn duplicate(&self) -> (copy: Commit)
        ensures
            commit_equivalent(copy, *self),
    {
        match self {
            Commit::Commit(data) => Commit::Commit(data.duplicate()),
            Commit::Stash(stash) => Commit::Stash(stash.duplicate()),
        }
    }
}

/// The status of one file in a diff.
#[derive(Clone, Debug, PartialEq, Eq)]
pub enum DiffStatus {
    Added,
    Modified,
    Deleted,
    Renamed,
    Conflict,
    Unknown,
    Unmodified,
    Untracked,
    Ignored,
}

/// The status and path of one file touched by a commit.
#[derive(Clone, Debug, PartialEq, Eq)]
pub struct FileStats {
    /// The status of the file in this commit.
    pub status: DiffStatus,
    /// The path of the object these stats apply to.
    pub path: Option<String>,
}

/// Statistics of a specific entry in a diff.
#[derive(Clone, Debug, PartialEq, Eq)]
pub struct DiffStat {
    /// The file this diff stat refers to.
    pub file: FileStats,
    /// The source of the difference (e.g. index or untracked for stashes, a
    /// specific parent for merge commits).
    pub source: Option<String>,
    /// The old path, if any. Only applicable to renamed files.
    pub old_path: Option<String>,
    /// The number of added lines.
    pub additions: usize,
    /// The number of deleted lines.
    pub deletions: usize,
}

/// Per-commit change statistics, for a regular commit or a stash.
#[derive(Clone, Debug, PartialEq, Eq)]
pub enum CommitStats {
    Commit(CommitStatsData),
    Stash(StashStatsData),
}

/// Change statistics of a regular commit.
#[derive(Clone, Debug, PartialEq, Eq)]
pub struct CommitStatsData {
    /// The commit these stats belong to.
    pub commit: FullCommitData,
    /// The changes directly in this commit.
    pub direct: Vec<DiffStat>,
    /// The incoming changes, i.e. the changes between a merge commit and its
    /// first parent. Only filled for merge commits.
    pub incoming: Option<Vec<DiffStat>>,
}

/// Change statistics of a stash.
#[derive(Clone, Debug, PartialEq, Eq)]
pub struct StashStatsData {
    /// The stash these stats belong to.
    pub stash: StashData,
    /// The changes in the working directory.
    pub changes: Vec<DiffStat>,
    /// Changes in the index.
    pub index: Option<Vec<DiffStat>>,
    /// Changes to untracked files, if any.
    pub untracked: Option<Vec<DiffStat>>,
}

/// The diff of a single file.
#[derive(Clone, Debug, PartialEq, Eq)]
pub struct FileDiff {
    /// The diff header for this file.
    pub header: Vec<String>,
    /// The old name of the file.
    pub old_name: String,
    /// The new name of the file. Might be identical to the old name.
    pub new_name: String,
    /// The chunks contained in this file.
    pub chunks: Vec<DiffChunk>,
}

/// A chunk in a diff.
#[derive(Clone, Debug, PartialEq, Eq)]
pub struct DiffChunk {
    /// The chunk header as present in the input.
    pub header: String,
    /// The lines, as present in the input.
    pub lines: Vec<DiffLine>,
}

/// An individual line in a diff.
#[derive(Clone, Debug, PartialEq, Eq)]
pub struct DiffLineData {
    /// The content of the line including the type marker at the start.
    pub content: String,
    /// The number of this line in the old version of the file.
    pub old_number: Option<u32>,
    /// The number of this line in the new version of the file.
    pub new_number: Option<u32>,
}

/// A diff line together with its role in the diff.
#[derive(Clone, Debug, PartialEq, Eq)]
pub enum DiffLine {
    Insert(DiffLineData),
    Delete(DiffLineData),
    Context(DiffLineData),
    PseudoContext(DiffLineData),
}

/// The parsed diff of a set of files.
#[derive(Clone, Debug, PartialEq, Eq)]
pub struct Diff(pub Vec<FileDiff>);

/// A worktree attached to the repository.
#[derive(Clone, Debug, PartialEq, Eq)]
pub struct Worktree {
    pub name: String,
    pub path: String,
    pub branch: Option<String>,
    pub oid: Option<String>,
    pub is_valid: bool,
}

/// Information about a tag in the repository.
#[derive(Clone, Debug, PartialEq, Eq)]
pub struct Tag {
    /// The name of the tag.
    pub name: String,
    /// The OID of the tag itself.
    pub oid: Option<String>,
    /// The OID of the commit this tag refers to.
    pub tagged_oid: String,
}

/// The source type for a branch/merge.
#[derive(Clone, Debug, PartialEq, Eq)]
pub enum SourceType {
    Branch,
    Commit,
}

/// Where a requested diff is taken from.
#[derive(Clone, Debug, PartialEq, Eq)]
pub enum DiffSourceType {
    Workdir,
    Index,
    Commit,
    Stash,
}

} // verus!
