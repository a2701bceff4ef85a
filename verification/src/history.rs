use vstd::prelude::*;

use crate::model::git::{
    commit_oid, commit_parent_oids, duplicate_parents, Commit, FullCommitData, ParentReference,
};

verus! {

// ---------------------------------------------------------------------------
// Rewriting history across elided commits.
//
// When a commit is dropped from a path-filtered walk, every commit that
// listed it as a parent has that reference replaced by the dropped commit's
// own parents, preserving connectivity.
// ---------------------------------------------------------------------------

/// The parents of `ps` that do not reference `oid`, in order.
pub open spec fn parents_without(ps: Seq<ParentReference>, oid: Seq<char>) -> Seq<ParentReference>
    decreases ps.len(),
{
    if ps.len() == 0 {
        Seq::empty()
    } else {
        let init = parents_without(ps.drop_last(), oid);
        if ps.last().oid@ == oid {
            init
        } else {
            init.push(ps.last())
        }
    }
}

/// The parent list after replacing references to `oid` by `replacement`:
/// the surviving references, extended by `replacement` iff anything was
/// removed.
pub open spec fn replaced_parents(
    ps: Seq<ParentReference>,
    oid: Seq<char>,
    replacement: Seq<ParentReference>,
) -> Seq<ParentReference> {
    let kept = parents_without(ps, oid);
    if kept.len() < ps.len() {
        kept + replacement
    } else {
        kept
    }
}

/// `rewritten` is `original` with every parent reference to `oid` replaced
/// by `replacement`; stashes and all other fields pass through unchanged.
pub open spec fn rewrites_parents(
    original: Commit,
    rewritten: Commit,
    oid: Seq<char>,
    replacement: Seq<ParentReference>,
) -> bool {
    match original {
        Commit::Stash(_) => rewritten == original,
        Commit::Commit(data) => rewritten matches Commit::Commit(new_data) && ({
            &&& new_data.oid == data.oid
            &&& new_data.short_oid == data.short_oid
            &&& new_data.message == data.message
            &&& new_data.author == data.author
            &&& new_data.committer == data.committer
            &&& new_data.parents@ == replaced_parents(data.parents@, oid, replacement)
        }),
    }
}

/// Replace every reference to the commit `oid` in the parent lists of
/// `commits` by `replace_with`. Stashes pass through untouched; every other
/// field of a commit is kept as it was.
pub fn replace_in_history(
    oid: &String,
    replace_with: &Vec<ParentReference>,
    commits: Vec<Commit>,
) -> (result: Vec<Commit>)
    ensures
        result@.len() == commits@.len(),
        forall|i: int|
            0 <= i < commits@.len() ==> #[trigger] rewrites_parents(
                commits@[i],
                result@[i],
                oid@,
                replace_with@,
            ),
{
    let ghost commits0 = commits@;
    let total = commits.len();
    let mut commits = commits;
    let mut result: Vec<Commit> = Vec::new();
    let mut i: usize = 0;
    proof {
        assert(commits0.skip(0) =~= commits0);
        assert(commits0.len() == total);
    }
    while commits.len() > 0
        invariant
            commits0.len() <= usize::MAX,
            i + commits@.len() == commits0.len(),
            commits@ == commits0.skip(i as int),
            result@.len() == i,
            forall|j: int|
                0 <= j < i ==> #[trigger] rewrites_parents(
                    commits0[j],
                    result@[j],
                    oid@,
                    replace_with@,
                ),
        decreases commits@.len(),
    {
        let commit = commits.remove(0);
        proof {
            assert(commit == commits0[i as int]);
            assert(commits@ =~= commits0.skip(i + 1));
        }
        match commit {
            Commit::Stash(stash) => {
                result.push(Commit::Stash(stash));
            },
            Commit::Commit(data) => {
                let mut new_parents: Vec<ParentReference> = Vec::new();
                let mut p: usize = 0;
                proof {
                    assert(new_parents@ =~= parents_without(data.parents@.take(0), oid@));
                }
                while p < data.parents.len()
                    invariant
                        p <= data.parents@.len(),
                        new_parents@ == parents_without(data.parents@.take(p as int), oid@),
                    decreases data.parents@.len() - p,
                {
                    if !(data.parents[p].oid == *oid) {
                        new_parents.push(data.parents[p].duplicate());
                    }
                    proof {
                        assert(data.parents@.take(p + 1).drop_last() =~= data.parents@.take(
                            p as int,
                        ));
                        assert(data.parents@.take(p + 1).last() == data.parents@[p as int]);
                        assert(new_parents@ =~= parents_without(
                            data.parents@.take(p + 1),
                            oid@,
                        ));
                    }
                    p += 1;
                }
                proof {
                    assert(data.parents@.take(data.parents@.len() as int) =~= data.parents@);
                    lemma_parents_without_len(data.parents@, oid@);
                }
                if new_parents.len() < data.parents.len() {
                    let mut r: usize = 0;
                    let ghost kept = new_parents@;
                    proof {
                        assert(new_parents@ =~= kept + replace_with@.take(0));
                    }
                    while r < replace_with.len()
                        invariant
                            r <= replace_with@.len(),
                            new_parents@ == kept + replace_with@.take(r as int),
                        decreases replace_with@.len() - r,
                    {
                        new_parents.push(replace_with[r].duplicate());
                        proof {
                            assert(new_parents@ =~= kept + replace_with@.take(r + 1));
                        }
                        r += 1;
                    }
                    proof {
                        assert(replace_with@.take(replace_with@.len() as int) =~= replace_with@);
                    }
                }
                result.push(
                    Commit::Commit(
                        FullCommitData {
                            oid: data.oid,
                            short_oid: data.short_oid,
                            message: data.message,
                            parents: new_parents,
                            author: data.author,
                            committer: data.committer,
                        },
                    ),
                );
            },
        }
        i += 1;
    }
    result
}

/// Removing references never lengthens a parent list.
proof fn lemma_parents_without_len(ps: Seq<ParentReference>, oid: Seq<char>)
    ensures
        parents_without(ps, oid).len() <= ps.len(),
    decreases ps.len(),
{
    if ps.len() > 0 {
        lemma_parents_without_len(ps.drop_last(), oid);
    }
}

// ---------------------------------------------------------------------------
// The adjacency map of a commit list, as an association list keyed by id.
// ---------------------------------------------------------------------------

/// The map an association list denotes: later entries win.
pub open spec fn adj_map(entries: Seq<(String, Vec<String>)>) -> Map<Seq<char>, Seq<Seq<char>>>
    decreases entries.len(),
{
    if entries.len() == 0 {
        Map::empty()
    } else {
        adj_map(entries.drop_last()).insert(
            entries.last().0@,
            entries.last().1@.map_values(|s: String| s@),
        )
    }
}

/// The adjacency of a commit list: each commit's id mapped to its parent
/// ids, later commits winning on duplicate ids.
pub open spec fn commits_adjacency(commits: Seq<Commit>) -> Map<Seq<char>, Seq<Seq<char>>>
    decreases commits.len(),
{
    if commits.len() == 0 {
        Map::empty()
    } else {
        commits_adjacency(commits.drop_last()).insert(
            commit_oid(commits.last()),
            commit_parent_oids(commits.last()),
        )
    }
}

/// Build a graph in the form of an adjacency list from the given commits.
pub fn build_adjecency_map(commits: &Vec<Commit>) -> (entries: Vec<(String, Vec<String>)>)
    ensures
        adj_map(entries@) == commits_adjacency(commits@),
{
    let mut entries: Vec<(String, Vec<String>)> = Vec::new();
    let mut i: usize = 0;
    proof {
        assert(adj_map(entries@) =~= commits_adjacency(commits@.take(0)));
    }
    while i < commits.len()
        invariant
            i <= commits@.len(),
            adj_map(entries@) == commits_adjacency(commits@.take(i as int)),
        decreases commits@.len() - i,
    {
        let commit = &commits[i];
        let key = commit.id().clone();
        let parent_refs = commit.parent_refs();
        let mut parent_ids: Vec<String> = Vec::new();
        let mut p: usize = 0;
        while p < parent_refs.len()
            invariant
                p <= parent_refs@.len(),
                parent_ids@.len() == p,
                forall|j: int| 0 <= j < p ==> parent_ids@[j]@ == parent_refs@[j].oid@,
            decreases parent_refs@.len() - p,
        {
            parent_ids.push(parent_refs[p].oid.clone());
            p += 1;
        }
        proof {
            assert(parent_ids@.map_values(|s: String| s@) =~= commit_parent_oids(
                commits@[i as int],
            ));
        }
        let ghost entries_before = entries@;
        entries.push((key, parent_ids));
        proof {
            assert(commits@.take(i + 1).drop_last() =~= commits@.take(i as int));
            assert(commits@.take(i + 1).last() == commits@[i as int]);
            assert(entries@.drop_last() =~= entries_before);
            assert(entries@.last().0@ == commit_oid(commits@[i as int]));
            assert(entries@.last().1@.map_values(|s: String| s@) == commit_parent_oids(
                commits@[i as int],
            ));
            assert(adj_map(entries@) =~= commits_adjacency(commits@.take(i + 1)));
        }
        i += 1;
    }
    proof {
        assert(commits@.take(commits@.len() as int) =~= commits@);
    }
    entries
}

/// The last entry with a given key decides what the association list maps
/// the key to.
proof fn lemma_adj_map_found(entries: Seq<(String, Vec<String>)>, k: int)
    requires
        0 <= k < entries.len(),
        forall|j: int| k < j < entries.len() ==> entries[j].0@ != entries[k].0@,
    ensures
        adj_map(entries).contains_key(entries[k].0@),
        adj_map(entries)[entries[k].0@] == entries[k].1@.map_values(|s: String| s@),
    decreases entries.len(),
{
    if k < entries.len() - 1 {
        assert(entries.drop_last()[k] == entries[k]);
        lemma_adj_map_found(entries.drop_last(), k);
    }
}

/// A key no entry carries is absent from the association list's map.
proof fn lemma_adj_map_missing(entries: Seq<(String, Vec<String>)>, key: Seq<char>)
    requires
        forall|j: int| 0 <= j < entries.len() ==> entries[j].0@ != key,
    ensures
        !adj_map(entries).contains_key(key),
    decreases entries.len(),
{
    if entries.len() > 0 {
        lemma_adj_map_missing(entries.drop_last(), key);
    }
}

/// Look a key up in the association list: the last entry wins, as a map
/// built by repeated insertion would have it.
fn adjacency_get<'a>(entries: &'a Vec<(String, Vec<String>)>, key: &String) -> (found: Option<
    &'a Vec<String>,
>)
    ensures
        match found {
            Some(parents) => adj_map(entries@).contains_key(key@) && parents@.map_values(
                |s: String| s@,
            ) == adj_map(entries@)[key@],
            None => !adj_map(entries@).contains_key(key@),
        },
{
    let mut i: usize = entries.len();
    while i > 0
        invariant
            i <= entries@.len(),
            forall|j: int| i <= j < entries@.len() ==> entries@[j].0@ != key@,
        decreases i,
    {
        i -= 1;
        if entries[i].0 == *key {
            proof {
                lemma_adj_map_found(entries@, i as int);
            }
            return Some(&entries[i].1);
        }
    }
    proof {
        lemma_adj_map_missing(entries@, key@);
    }
    None
}

// ---------------------------------------------------------------------------
// Transitive reduction.
// ---------------------------------------------------------------------------

/// Search along `neighbors` for a path to `end`, exactly as the depth-first
/// walk does: a neighbor equal to `end` answers at once (and counts only
/// when this is not the starting level), otherwise the walk descends, with
/// `depth` bounding the recursion.
pub open spec fn search_from(
    adj: Map<Seq<char>, Seq<Seq<char>>>,
    neighbors: Seq<Seq<char>>,
    end: Seq<char>,
    is_start: bool,
    depth: nat,
) -> bool
    decreases depth, 0nat, neighbors.len(),
{
    if neighbors.len() == 0 {
        false
    } else if neighbors[0] == end {
        !is_start
    } else if depth > 0 && has_path(adj, neighbors[0], end, (depth - 1) as nat) {
        true
    } else {
        search_from(adj, neighbors.drop_first(), end, is_start, depth)
    }
}

/// There is a path from `start` to `end` in the adjacency map, found within
/// `depth` levels of descent.
pub open spec fn has_path(
    adj: Map<Seq<char>, Seq<Seq<char>>>,
    start: Seq<char>,
    end: Seq<char>,
    depth: nat,
) -> bool
    decreases depth, 1nat, 0nat,
{
    if adj.contains_key(start) {
        search_from(adj, adj[start], end, false, depth)
    } else {
        false
    }
}

/// Is `end` reachable from `start` through the graph other than by the
/// direct edge? At the starting level a neighbor equal to `end` is the
/// direct edge and does not count. `depth` bounds the recursion; commit
/// graphs are acyclic, so any depth at least the number of commits finds
/// every path.
pub fn has_indirect_path(
    graph: &Vec<(String, Vec<String>)>,
    start: &String,
    end: &String,
    is_start: bool,
    depth: u64,
) -> (reachable: bool)
    ensures
        reachable == if is_start {
            adj_map(graph@).contains_key(start@) && search_from(
                adj_map(graph@),
                adj_map(graph@)[start@],
                end@,
                true,
                depth as nat,
            )
        } else {
            has_path(adj_map(graph@), start@, end@, depth as nat)
        },
    decreases depth,
{
    let neighbors = match adjacency_get(graph, start) {
        Some(neighbors) => neighbors,
        None => {
            return false;
        },
    };
    let ghost all = neighbors@.map_values(|s: String| s@);
    let mut j: usize = 0;
    proof {
        assert(all.skip(0) =~= all);
    }
    while j < neighbors.len()
        invariant
            j <= neighbors@.len(),
            all == neighbors@.map_values(|s: String| s@),
            all == adj_map(graph@)[start@],
            adj_map(graph@).contains_key(start@),
            search_from(adj_map(graph@), all, end@, is_start, depth as nat) == search_from(
                adj_map(graph@),
                all.skip(j as int),
                end@,
                is_start,
                depth as nat,
            ),
        decreases neighbors@.len() - j,
    {
        proof {
            assert(all.skip(j as int)[0] == all[j as int]);
            assert(all.skip(j as int).drop_first() =~= all.skip(j + 1));
        }
        if neighbors[j] == *end {
            return !is_start;
        }
        if depth > 0 && has_indirect_path(graph, &neighbors[j], end, false, depth - 1) {
            return true;
        }
        j += 1;
    }
    proof {
        assert(all.skip(neighbors@.len() as int) =~= Seq::<Seq<char>>::empty());
    }
    false
}

/// The parents that survive the reduction: those not reachable from the
/// commit another way.
pub open spec fn reduced_parents(
    adj: Map<Seq<char>, Seq<Seq<char>>>,
    oid: Seq<char>,
    ps: Seq<ParentReference>,
    depth: nat,
) -> Seq<ParentReference>
    decreases ps.len(),
{
    if ps.len() == 0 {
        Seq::empty()
    } else {
        let init = reduced_parents(adj, oid, ps.drop_last(), depth);
        let direct = adj.contains_key(oid) && search_from(adj, adj[oid], ps.last().oid@, true, depth);
        if direct {
            init
        } else {
            init.push(ps.last())
        }
    }
}

/// `reduced` is `original` with its parent list transitively reduced when
/// it is a merge commit; otherwise it is `original` unchanged.
pub open spec fn reduction_of(
    original: Commit,
    reduced: Commit,
    adj: Map<Seq<char>, Seq<Seq<char>>>,
    depth: nat,
) -> bool {
    match original {
        Commit::Commit(data) => if data.parents@.len() > 1 {
            reduced matches Commit::Commit(new_data) && ({
                &&& new_data.oid == data.oid
                &&& new_data.short_oid == data.short_oid
                &&& new_data.message == data.message
                &&& new_data.author == data.author
                &&& new_data.committer == data.committer
                &&& new_data.parents@ == reduced_parents(adj, data.oid@, data.parents@, depth)
            })
        } else {
            reduced == original
        },
        Commit::Stash(_) => reduced == original,
    }
}

/// Drop, from every merge commit, each parent that is also reachable
/// through another parent: the "shortcut" edges a path-filtered walk leaves
/// behind. Commits with at most one parent pass through untouched.
pub fn transitive_reduction(commits: Vec<Commit>) -> (result: Vec<Commit>)
    requires
        forall|i: int| 0 <= i < commits@.len() ==> commits@[i] is Commit,
    ensures
        result@.len() == commits@.len(),
        forall|i: int|
            0 <= i < commits@.len() ==> #[trigger] reduction_of(
                commits@[i],
                result@[i],
                commits_adjacency(commits@),
                commits@.len() as nat,
            ),
{
    let graph = build_adjecency_map(&commits);
    let depth: u64 = commits.len() as u64;
    let ghost commits0 = commits@;
    let ghost adj = commits_adjacency(commits0);
    let total = commits.len();
    let mut commits = commits;
    let mut result: Vec<Commit> = Vec::new();
    let mut i: usize = 0;
    proof {
        assert(commits0.skip(0) =~= commits0);
        assert(commits0.len() == total);
    }
    while commits.len() > 0
        invariant
            commits0.len() <= usize::MAX,
            i + commits@.len() == commits0.len(),
            commits@ == commits0.skip(i as int),
            result@.len() == i,
            adj == adj_map(graph@),
            adj == commits_adjacency(commits0),
            depth as nat == commits0.len() as nat,
            forall|j: int| 0 <= j < commits0.len() ==> commits0[j] is Commit,
            forall|j: int|
                0 <= j < i ==> #[trigger] reduction_of(
                    commits0[j],
                    result@[j],
                    adj,
                    depth as nat,
                ),
        decreases commits@.len(),
    {
        let commit = commits.remove(0);
        proof {
            assert(commit == commits0[i as int]);
            assert(commits@ =~= commits0.skip(i + 1));
        }
        match commit {
            Commit::Stash(stash) => {
                result.push(Commit::Stash(stash));
            },
            Commit::Commit(data) => {
                if data.parents.len() > 1 {
                    let mut simplified: Vec<ParentReference> = Vec::new();
                    let mut p: usize = 0;
                    proof {
                        assert(simplified@ =~= reduced_parents(
                            adj,
                            data.oid@,
                            data.parents@.take(0),
                            depth as nat,
                        ));
                    }
                    while p < data.parents.len()
                        invariant
                            p <= data.parents@.len(),
                            adj == adj_map(graph@),
                            depth as nat == commits0.len() as nat,
                            simplified@ == reduced_parents(
                                adj,
                                data.oid@,
                                data.parents@.take(p as int),
                                depth as nat,
                            ),
                        decreases data.parents@.len() - p,
                    {
                        if !has_indirect_path(&graph, &data.oid, &data.parents[p].oid, true, depth)
                        {
                            simplified.push(data.parents[p].duplicate());
                        }
                        proof {
                            assert(data.parents@.take(p + 1).drop_last() =~= data.parents@.take(
                                p as int,
                            ));
                            assert(data.parents@.take(p + 1).last() == data.parents@[p as int]);
                            assert(simplified@ =~= reduced_parents(
                                adj,
                                data.oid@,
                                data.parents@.take(p + 1),
                                depth as nat,
                            ));
                        }
                        p += 1;
                    }
                    proof {
                        assert(data.parents@.take(data.parents@.len() as int) =~= data.parents@);
                    }
                    result.push(
                        Commit::Commit(
                            FullCommitData {
                                oid: data.oid,
                                short_oid: data.short_oid,
                                message: data.message,
                                parents: simplified,
                                author: data.author,
                                committer: data.committer,
                            },
                        ),
                    );
                } else {
                    result.push(Commit::Commit(data));
                }
            },
        }
        i += 1;
    }
    result
}

// ---------------------------------------------------------------------------
// Assembling a path-filtered history.
// ---------------------------------------------------------------------------

/// The parent references a commit hands on when it is elided.
pub open spec fn commit_parents(c: Commit) -> Seq<ParentReference> {
    match c {
        Commit::Commit(data) => data.parents@,
        Commit::Stash(stash) => stash.parents@,
    }
}

/// `next` is `prev` with every reference to the elided commit replaced by
/// the elided commit's own parents.
pub open spec fn elision_of(prev: Seq<Commit>, next: Seq<Commit>, elided: Commit) -> bool {
    &&& next.len() == prev.len()
    &&& forall|i: int|
        0 <= i < prev.len() ==> rewrites_parents(
            prev[i],
            #[trigger] next[i],
            commit_oid(elided),
            commit_parents(elided),
        )
}

/// One collection step: a commit flagged as carrying changes is appended
/// to the history collected so far; any other commit is elided from it.
pub open spec fn filtered_step(prev: Seq<Commit>, next: Seq<Commit>, entry: (Commit, bool)) -> bool {
    if entry.1 {
        next == prev.push(entry.0)
    } else {
        elision_of(prev, next, entry.0)
    }
}

/// `states` is the chain of intermediate histories of collecting the walked
/// commits: it starts empty, and each walked commit makes one step.
pub open spec fn filtered_history(entries: Seq<(Commit, bool)>, states: Seq<Seq<Commit>>) -> bool {
    &&& states.len() == entries.len() + 1
    &&& states[0] == Seq::<Commit>::empty()
    &&& forall|j: int|
        0 <= j < entries.len() ==> filtered_step(states[j], states[j + 1], #[trigger] entries[j])
}

/// Assemble the displayed history from the walked commits, each flagged
/// with whether it carries changes matching the path filter. Without an
/// active path filter every commit is kept as walked. With one, commits
/// without matching changes are elided — the commits walked before them
/// inherit their parents — and the collected history is then transitively
/// reduced.
pub fn load_history(commits: Vec<(Commit, bool)>, pathspec_active: bool) -> (result: Vec<Commit>)
    requires
        forall|i: int| 0 <= i < commits@.len() ==> (#[trigger] commits@[i]).0 is Commit,
    ensures
        !pathspec_active ==> result@ == commits@.map_values(|e: (Commit, bool)| e.0),
        pathspec_active ==> exists|states: Seq<Seq<Commit>>|
            {
                let filtered = states.last();
                &&& #[trigger] filtered_history(commits@, states)
                &&& result@.len() == filtered.len()
                &&& forall|i: int|
                    0 <= i < filtered.len() ==> reduction_of(
                        filtered[i],
                        #[trigger] result@[i],
                        commits_adjacency(filtered),
                        filtered.len() as nat,
                    )
            },
{
    let ghost commits0 = commits@;
    let total = commits.len();
    let mut commits = commits;
    let mut history: Vec<Commit> = Vec::new();
    let ghost mut states: Seq<Seq<Commit>> = seq![Seq::<Commit>::empty()];
    let mut i: usize = 0;
    proof {
        assert(commits0.skip(0) =~= commits0);
        assert(commits0.len() == total);
        assert(commits0.take(0).map_values(|e: (Commit, bool)| e.0) =~= Seq::<Commit>::empty());
    }
    while commits.len() > 0
        invariant
            commits0.len() <= usize::MAX,
            i + commits@.len() == commits0.len(),
            commits@ == commits0.skip(i as int),
            forall|j: int| 0 <= j < commits0.len() ==> (#[trigger] commits0[j]).0 is Commit,
            forall|j: int| 0 <= j < history@.len() ==> #[trigger] history@[j] is Commit,
            states.len() == i + 1,
            states[0] == Seq::<Commit>::empty(),
            states.last() == history@,
            pathspec_active ==> forall|j: int|
                0 <= j < i ==> filtered_step(states[j], states[j + 1], #[trigger] commits0[j]),
            !pathspec_active ==> history@ == commits0.take(i as int).map_values(
                |e: (Commit, bool)| e.0,
            ),
        decreases commits@.len(),
    {
        let ghost before = history@;
        let (walked, has_changes) = commits.remove(0);
        proof {
            assert((walked, has_changes) == commits0[i as int]);
            assert(commits@ =~= commits0.skip(i + 1));
        }
        if !pathspec_active || has_changes {
            history.push(walked);
            proof {
                if !pathspec_active {
                    assert(commits0.take(i + 1).drop_last() =~= commits0.take(i as int));
                    assert(commits0.take(i + 1).last() == commits0[i as int]);
                    assert(history@ =~= commits0.take(i + 1).map_values(
                        |e: (Commit, bool)| e.0,
                    ));
                }
            }
        } else {
            let elided_id = walked.id().clone();
            let inherited = duplicate_parents(walked.parent_refs());
            let rewritten = replace_in_history(&elided_id, &inherited, history);
            history = rewritten;
            proof {
                assert(elision_of(before, history@, walked));
                assert forall|j: int| 0 <= j < history@.len() implies #[trigger] history@[j]
                    is Commit by {
                    assert(rewrites_parents(before[j], history@[j], elided_id@, inherited@));
                }
            }
        }
        proof {
            states = states.push(history@);
            if pathspec_active {
                assert(filtered_step(before, history@, commits0[i as int]));
            }
            assert(states[i as int] == before);
        }
        i += 1;
    }
    proof {
        assert(commits0.take(commits0.len() as int) =~= commits0);
    }
    if pathspec_active {
        let ghost filtered = history@;
        let reduced = transitive_reduction(history);
        proof {
            assert(filtered_history(commits0, states));
            assert(states.last() == filtered);
        }
        reduced
    } else {
        history
    }
}

} // verus!
