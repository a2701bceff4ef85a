use vstd::prelude::*;
use vstd::string::StrSliceExecFns;

use crate::graph_generator::{lemma_run_index, run_rails, run_rows, GraphGenerator, RowModel};
use crate::model::git::{commit_oid, commit_parent_oids, Commit, FullCommitData};
use crate::model::graph::{
    duplicate_rails, rails_model, GraphChangeData, GraphLayoutData, LayoutListEntry, Rail,
};

verus! {

/// How many rows beyond the requested window one extension loads, and how
/// many rows beyond the known end the total is estimated at while the
/// history is still growing.
pub const BATCH_SLACK: usize = 50;

/// How many rows beyond the known end the history size is estimated at
/// while the trailing row still expects parents.
pub const SIZE_ESTIMATE_SLACK: usize = 100;

// ---------------------------------------------------------------------------
// Substring search.
// ---------------------------------------------------------------------------

/// `needle` occurs contiguously inside `hay`.
pub open spec fn contains_substring(hay: Seq<char>, needle: Seq<char>) -> bool {
    exists|i: int|
        0 <= i <= hay.len() - needle.len() && #[trigger] hay.subrange(i, i + needle.len())
            == needle
}

/// Substring search over the characters of the two strings.
pub fn str_contains(haystack: &str, needle: &str) -> (found: bool)
    ensures
        found == contains_substring(haystack@, needle@),
{
    let hay_len = haystack.unicode_len();
    let needle_len = needle.unicode_len();
    if needle_len > hay_len {
        return false;
    }
    if needle_len == 0 {
        proof {
            let w: int = 0;
            assert(haystack@.subrange(w, w + needle@.len() as int) =~= needle@);
        }
        return true;
    }
    let mut i: usize = 0;
    while i <= hay_len - needle_len
        invariant
            hay_len == haystack@.len(),
            needle_len == needle@.len(),
            1 <= needle_len <= hay_len,
            i <= hay_len - needle_len + 1,
            forall|s: int|
                0 <= s < i ==> #[trigger] haystack@.subrange(s, s + needle@.len()) != needle@,
        decreases hay_len - needle_len + 1 - i,
    {
        let mut k: usize = 0;
        let mut same = true;
        while same && k < needle_len
            invariant
                hay_len == haystack@.len(),
                needle_len == needle@.len(),
                i + needle_len <= hay_len,
                k <= needle_len,
                same ==> forall|t: int| 0 <= t < k ==> haystack@[i + t] == needle@[t],
                !same ==> haystack@.subrange(i as int, i + needle@.len()) != needle@,
            decreases needle_len - k,
        {
            let hc = haystack.get_char(i + k);
            let nc = needle.get_char(k);
            if hc != nc {
                proof {
                    assert(haystack@.subrange(i as int, i + needle@.len())[k as int]
                        == haystack@[i + k]);
                }
                same = false;
            }
            k += 1;
        }
        if same {
            proof {
                assert(haystack@.subrange(i as int, i + needle@.len()) =~= needle@);
            }
            return true;
        }
        i += 1;
    }
    proof {
        assert forall|s: int|
            0 <= s <= haystack@.len() - needle@.len() implies #[trigger] haystack@.subrange(
            s,
            s + needle@.len(),
        ) != needle@ by {}
    }
    false
}

// ---------------------------------------------------------------------------
// Case-insensitive commit search.
// ---------------------------------------------------------------------------

/// The lowercase form of a string, as `str::to_lowercase` computes it.
pub uninterp spec fn lower_of(s: Seq<char>) -> Seq<char>;

/// Relies on str::to_lowercase: the lowercase mapping depends on the
/// characters alone.
#[verifier::external_body]
fn lowercase(s: &String) -> (lowered: String)
    ensures
        lowered@ == lower_of(s@),
{
    s.to_lowercase()
}

/// The commit's lowercased author name, author email, message, short id or
/// full id contains the search term.
pub open spec fn commit_matches(data: FullCommitData, term: Seq<char>) -> bool {
    ||| contains_substring(lower_of(data.author.name@), term)
    ||| contains_substring(lower_of(data.author.email@), term)
    ||| contains_substring(lower_of(data.message@), term)
    ||| contains_substring(lower_of(data.short_oid@), term)
    ||| contains_substring(lower_of(data.oid@), term)
}

/// Does this commit match the search term? The commit's fields are
/// lowercased; the term is taken as given.
pub fn match_commit(commit: &FullCommitData, search_term: &str) -> (matched: bool)
    ensures
        matched == commit_matches(*commit, search_term@),
{
    if str_contains(lowercase(&commit.author.name).as_str(), search_term) {
        return true;
    }
    if str_contains(lowercase(&commit.author.email).as_str(), search_term) {
        return true;
    }
    if str_contains(lowercase(&commit.message).as_str(), search_term) {
        return true;
    }
    if str_contains(lowercase(&commit.short_oid).as_str(), search_term) {
        return true;
    }
    str_contains(lowercase(&commit.oid).as_str(), search_term)
}

/// The row indices of the regular commits matching the term, in increasing
/// order. Stashes never match.
pub open spec fn matching_indices(lines: Seq<LayoutListEntry>, term: Seq<char>) -> Seq<int>
    decreases lines.len(),
{
    if lines.len() == 0 {
        Seq::empty()
    } else {
        let init = matching_indices(lines.drop_last(), term);
        match lines.last().commit {
            Commit::Commit(data) => if commit_matches(data, term) {
                init.push(lines.len() - 1)
            } else {
                init
            },
            Commit::Stash(_) => init,
        }
    }
}

/// Search the already-computed rows for commits matching the term.
pub fn find_commits(graph: &GraphLayoutData, search_term: &str) -> (found: Vec<usize>)
    ensures
        found@.map_values(|v: usize| v as int) == matching_indices(graph.lines@, search_term@),
{
    let mut found: Vec<usize> = Vec::new();
    let mut i: usize = 0;
    proof {
        assert(found@.map_values(|v: usize| v as int) =~= matching_indices(
            graph.lines@.take(0),
            search_term@,
        ));
    }
    while i < graph.lines.len()
        invariant
            i <= graph.lines@.len(),
            found@.map_values(|v: usize| v as int) == matching_indices(
                graph.lines@.take(i as int),
                search_term@,
            ),
        decreases graph.lines@.len() - i,
    {
        match &graph.lines[i].commit {
            Commit::Commit(data) => {
                if match_commit(data, search_term) {
                    found.push(i);
                }
            },
            Commit::Stash(_) => {},
        }
        proof {
            assert(graph.lines@.take(i + 1).drop_last() =~= graph.lines@.take(i as int));
            assert(graph.lines@.take(i + 1).last() == graph.lines@[i as int]);
            assert(found@.map_values(|v: usize| v as int) =~= matching_indices(
                graph.lines@.take(i + 1),
                search_term@,
            ));
        }
        i += 1;
    }
    proof {
        assert(graph.lines@.take(graph.lines@.len() as int) =~= graph.lines@);
    }
    found
}

// ---------------------------------------------------------------------------
// Lookup and range queries over the computed rows.
// ---------------------------------------------------------------------------

/// The index of the first row displaying the commit with the given id, over
/// the already-computed rows only.
pub fn get_index(graph: &GraphLayoutData, oid: &String) -> (idx: Option<usize>)
    ensures
        match idx {
            Some(i) => i < graph.lines@.len() && commit_oid(graph.lines@[i as int].commit)
                == oid@ && forall|j: int|
                0 <= j < i ==> commit_oid(graph.lines@[j].commit) != oid@,
            None => forall|j: int|
                0 <= j < graph.lines@.len() ==> commit_oid(graph.lines@[j].commit) != oid@,
        },
{
    let mut i: usize = 0;
    while i < graph.lines.len()
        invariant
            i <= graph.lines@.len(),
            forall|j: int| 0 <= j < i ==> commit_oid(graph.lines@[j].commit) != oid@,
        decreases graph.lines@.len() - i,
    {
        if *graph.lines[i].commit.id() == *oid {
            return Some(i);
        }
        i += 1;
    }
    None
}

/// The rows in `[start_idx, end_idx)`, clamped to what has been computed.
pub fn get_graph_entries(graph: &GraphLayoutData, start_idx: usize, end_idx: usize) -> (entries:
    Vec<LayoutListEntry>)
    requires
        start_idx <= end_idx,
    ensures
        ({
            let len = graph.lines@.len() as int;
            let lo = if start_idx as int <= len { start_idx as int } else { len };
            let hi = if end_idx as int <= len { end_idx as int } else { len };
            &&& entries@.len() == hi - lo
            &&& forall|j: int|
                0 <= j < hi - lo ==> crate::model::graph::entry_equivalent(
                    entries@[j],
                    graph.lines@[lo + j],
                )
        }),
{
    let ghost len = graph.lines@.len() as int;
    let ghost lo = if start_idx as int <= len { start_idx as int } else { len };
    let ghost hi = if end_idx as int <= len { end_idx as int } else { len };
    let mut entries: Vec<LayoutListEntry> = Vec::new();
    let mut i: usize = if start_idx <= graph.lines.len() {
        start_idx
    } else {
        graph.lines.len()
    };
    while i < end_idx && i < graph.lines.len()
        invariant
            lo <= i as int <= hi,
            i as int == lo + entries@.len(),
            lo == if start_idx as int <= len { start_idx as int } else { len },
            hi == if end_idx as int <= len { end_idx as int } else { len },
            len == graph.lines@.len() as int,
            start_idx <= end_idx,
            forall|j: int|
                0 <= j < entries@.len() ==> crate::model::graph::entry_equivalent(
                    entries@[j],
                    graph.lines@[lo + j],
                ),
        decreases graph.lines@.len() - i,
    {
        entries.push(graph.lines[i].duplicate());
        i += 1;
    }
    entries
}


/// Idempotent paging: the rows of `[0, n)` followed by the rows of
/// `[n, m)` are exactly the rows of a single request for `[0, m)`, on a
/// graph that is not extended in between. (Each request returns the stored
/// rows of its clamped range, so the two windows concatenate seamlessly.)
pub proof fn lemma_paging_idempotent(graph: GraphLayoutData, n: int, m: int)
    requires
        0 <= n <= m,
    ensures
        ({
            let len = graph.lines@.len() as int;
            let n1 = if n <= len { n } else { len };
            let m1 = if m <= len { m } else { len };
            graph.lines@.subrange(0, n1).add(graph.lines@.subrange(n1, m1)) == graph.lines@
                .subrange(0, m1)
        }),
{
    let len = graph.lines@.len() as int;
    let n1 = if n <= len { n } else { len };
    let m1 = if m <= len { m } else { len };
    assert(graph.lines@.subrange(0, n1).add(graph.lines@.subrange(n1, m1)) =~= graph.lines@
        .subrange(0, m1));
}

// ---------------------------------------------------------------------------
// Incremental extension of the computed graph.
// ---------------------------------------------------------------------------

/// The rail state the next extension resumes from: the rails of the trailing
/// row, or no rails at all while nothing has been computed.
pub open spec fn trailing_rails_model(graph: GraphLayoutData) -> Seq<
    Option<crate::model::graph::RailEntryModel>,
> {
    if graph.lines@.len() == 0 {
        Seq::empty()
    } else {
        rails_model(graph.lines@.last().rails@)
    }
}

/// The mathematical value of a stored layout row.
pub open spec fn entry_row_model(entry: LayoutListEntry) -> RowModel {
    RowModel {
        rail: entry.rail as int,
        has_parent_line: entry.has_parent_line,
        has_child_line: entry.has_child_line,
        outgoing: entry.outgoing@.map_values(|v: usize| v as int),
        incoming: entry.incoming@.map_values(|v: usize| v as int),
        rails: rails_model(entry.rails@),
    }
}

/// The ids the trailing rails still expect: the frontier of parents not yet
/// visited by the walk. The next extension pulls these from the commit
/// source.
pub open spec fn pending_oids(rails: Seq<Rail>) -> Seq<Seq<char>>
    decreases rails.len(),
{
    if rails.len() == 0 {
        Seq::empty()
    } else {
        let init = pending_oids(rails.drop_last());
        match rails.last() {
            Some(entry) => init.push(entry.expected_parent@),
            None => init,
        }
    }
}

/// The commit ids still outstanding on the trailing row's rails.
pub fn get_missing_oids(graph: &GraphLayoutData) -> (missing: Vec<String>)
    ensures
        missing@.map_values(|s: String| s@) == if graph.lines@.len() == 0 {
            Seq::<Seq<char>>::empty()
        } else {
            pending_oids(graph.lines@.last().rails@)
        },
{
    let mut missing: Vec<String> = Vec::new();
    if graph.lines.len() == 0 {
        proof {
            assert(missing@.map_values(|s: String| s@) =~= Seq::<Seq<char>>::empty());
        }
        return missing;
    }
    let last = &graph.lines[graph.lines.len() - 1];
    let mut i: usize = 0;
    proof {
        assert(missing@.map_values(|s: String| s@) =~= pending_oids(last.rails@.take(0)));
    }
    while i < last.rails.len()
        invariant
            i <= last.rails@.len(),
            missing@.map_values(|s: String| s@) == pending_oids(last.rails@.take(i as int)),
        decreases last.rails@.len() - i,
    {
        match &last.rails[i] {
            Some(entry) => {
                missing.push(entry.expected_parent.clone());
            },
            None => {},
        }
        proof {
            assert(last.rails@.take(i + 1).drop_last() =~= last.rails@.take(i as int));
            assert(last.rails@.take(i + 1).last() == last.rails@[i as int]);
            assert(missing@.map_values(|s: String| s@) =~= pending_oids(last.rails@.take(i + 1)));
        }
        i += 1;
    }
    proof {
        assert(last.rails@.take(last.rails@.len() as int) =~= last.rails@);
    }
    missing
}

/// Lay out the given batch of commits and append the resulting rows,
/// resuming from the trailing row's rails. Returns the change notification:
/// while rows were added the total is only an estimate, `BATCH_SLACK` rows
/// beyond the known end; once an extension adds nothing the total is exact.
pub fn load_more_graph_entries(graph: &mut GraphLayoutData, new_commits: Vec<Commit>) -> (change:
    GraphChangeData)
    requires
        old(graph).lines@.len() + new_commits@.len() + BATCH_SLACK <= usize::MAX,
    ensures
        ({
            let start = trailing_rails_model(*old(graph));
            let rows = run_rows(start, new_commits@);
            let old_len = old(graph).lines@.len() as int;
            &&& final(graph).lines@.len() == old_len + new_commits@.len()
            &&& final(graph).lines@.subrange(0, old_len) == old(graph).lines@
            &&& forall|j: int|
                0 <= j < new_commits@.len() ==> entry_row_model(
                    #[trigger] final(graph).lines@[old_len + j],
                ) == rows[j]
            &&& forall|j: int|
                0 <= j < new_commits@.len() ==> final(graph).lines@[old_len + j].commit
                    == new_commits@[j]
            &&& rails_model(final(graph).rails@) == run_rails(start, new_commits@)
            &&& change.change_start_idx == 0
            &&& change.change_end_idx == final(graph).lines@.len()
            &&& change.total == if new_commits@.len() > 0 {
                final(graph).lines@.len() + BATCH_SLACK as int
            } else {
                final(graph).lines@.len() as int
            }
        }),
{
    let old_len = graph.lines.len();
    let start_rails: Vec<Rail> = if graph.lines.len() > 0 {
        duplicate_rails(&graph.lines[graph.lines.len() - 1].rails)
    } else {
        Vec::new()
    };
    let ghost start = rails_model(start_rails@);
    proof {
        assert(rails_model(Seq::<Rail>::empty()) =~= Seq::<
            Option<crate::model::graph::RailEntryModel>,
        >::empty());
        assert(start == trailing_rails_model(*graph));
    }
    let mut generator = GraphGenerator::new(Some(start_rails));
    let mut commits = new_commits;
    let ghost commits0 = commits@;
    let mut i: usize = 0;
    proof {
        assert(commits0.take(0) =~= Seq::<Commit>::empty());
        assert(commits0.skip(0) =~= commits0);
        assert(graph.lines@.subrange(0, old_len as int) =~= graph.lines@);
    }
    while commits.len() > 0
        invariant
            old_len + commits0.len() + BATCH_SLACK <= usize::MAX,
            i + commits@.len() == commits0.len(),
            commits@ == commits0.skip(i as int),
            generator.rails_view() == run_rails(start, commits0.take(i as int)),
            graph.lines@.len() == old_len + i,
            graph.lines@.subrange(0, old_len as int) == old(graph).lines@,
            forall|j: int|
                0 <= j < i ==> entry_row_model(#[trigger] graph.lines@[old_len + j]) == run_rows(
                    start,
                    commits0,
                )[j],
            forall|j: int|
                0 <= j < i ==> graph.lines@[old_len + j].commit == commits0[j],
        decreases commits@.len(),
    {
        let ghost rails_before = generator.rails_view();
        let commit = commits.remove(0);
        proof {
            assert(commit == commits0[i as int]);
            assert(commits@ =~= commits0.skip(i + 1));
        }
        let row = generator.next(commit);
        proof {
            lemma_run_index(start, commits0, i as int);
            assert(entry_row_model(row) =~= run_rows(start, commits0)[i as int]);
            assert(generator.rails_view() == run_rails(start, commits0.take(i + 1)));
        }
        graph.lines.push(row);
        proof {
            assert(graph.lines@.subrange(0, old_len as int) =~= old(graph).lines@);
        }
        i += 1;
    }
    proof {
        assert(commits0.take(commits0.len() as int) =~= commits0);
    }
    let trailing: Vec<Rail> = if graph.lines.len() > 0 {
        duplicate_rails(&graph.lines[graph.lines.len() - 1].rails)
    } else {
        Vec::new()
    };
    graph.rails = trailing;
    proof {
        assert(rails_model(Seq::<Rail>::empty()) =~= Seq::<
            Option<crate::model::graph::RailEntryModel>,
        >::empty());
        if commits0.len() > 0 {
            let last = commits0.len() - 1;
            lemma_run_index(start, commits0, last as int);
            assert(graph.lines@.last() == graph.lines@[old_len + last]);
            assert(entry_row_model(graph.lines@.last()) == run_rows(start, commits0)[last as int]);
            assert(commits0.take(last + 1) =~= commits0);
        } else {
            assert(graph.lines@.subrange(0, old_len as int) =~= graph.lines@);
            assert(graph.lines@ == old(graph).lines@);
        }
    }
    if graph.lines.len() != old_len {
        GraphChangeData {
            total: graph.lines.len() + BATCH_SLACK,
            change_start_idx: 0,
            change_end_idx: graph.lines.len(),
        }
    } else {
        GraphChangeData {
            total: graph.lines.len(),
            change_start_idx: 0,
            change_end_idx: graph.lines.len(),
        }
    }
}

/// The number of rows the UI should plan for: the known rows, plus a fixed
/// lookahead while the trailing row still continues downward (or nothing has
/// been computed yet).
pub fn get_history_size(graph: &GraphLayoutData) -> (size: usize)
    requires
        graph.lines@.len() + SIZE_ESTIMATE_SLACK <= usize::MAX,
    ensures
        size == graph.lines@.len() + if graph.lines@.len() == 0 {
            SIZE_ESTIMATE_SLACK as int
        } else if graph.lines@.last().has_parent_line {
            SIZE_ESTIMATE_SLACK as int
        } else {
            0int
        },
{
    if graph.lines.len() == 0 {
        return SIZE_ESTIMATE_SLACK;
    }
    if graph.lines[graph.lines.len() - 1].has_parent_line {
        graph.lines.len() + SIZE_ESTIMATE_SLACK
    } else {
        graph.lines.len()
    }
}

} // verus!
