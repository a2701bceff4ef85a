use vstd::prelude::*;
use vstd::pervasive::VecAdditionalExecFns;

use crate::model::git::{commit_oid, commit_parent_oids, Commit};
use crate::model::graph::{
    duplicate_rails, rail_model, rails_model, LayoutListEntry, Rail, RailEntry, RailEntryModel,
};

verus! {

// ---------------------------------------------------------------------------
// The mathematical description of the layout algorithm.
//
// One layout row is computed from the current rail state and one commit; the
// functions below describe every step of that computation over sequences, and
// the executable code is proved to return exactly these values.
// ---------------------------------------------------------------------------

/// Does this rail expect `oid` as the next commit below?
pub open spec fn expects(rail: Option<RailEntryModel>, oid: Seq<char>) -> bool {
    match rail {
        Some(entry) => entry.expected_parent == oid,
        None => false,
    }
}

/// The leftmost rail expecting `oid`, if any.
pub open spec fn first_expecting(rails: Seq<Option<RailEntryModel>>, oid: Seq<char>) -> Option<
    int,
>
    decreases rails.len(),
{
    if rails.len() == 0 {
        None
    } else if expects(rails[0], oid) {
        Some(0int)
    } else {
        match first_expecting(rails.drop_first(), oid) {
            Some(i) => Some(i + 1),
            None => None,
        }
    }
}

/// The leftmost free rail, if any.
pub open spec fn first_free(rails: Seq<Option<RailEntryModel>>) -> Option<int>
    decreases rails.len(),
{
    if rails.len() == 0 {
        None
    } else if rails[0] is None {
        Some(0int)
    } else {
        match first_free(rails.drop_first()) {
            Some(i) => Some(i + 1),
            None => None,
        }
    }
}

/// Find the rail for `oid`: the leftmost rail expecting it, else the leftmost
/// free rail, else a rail appended at the right end. Returns the (possibly
/// extended) rail state, the chosen index, and whether `oid` was expected.
pub open spec fn find_rail(rails: Seq<Option<RailEntryModel>>, oid: Seq<char>) -> (
    Seq<Option<RailEntryModel>>,
    int,
    bool,
) {
    match first_expecting(rails, oid) {
        Some(i) => (rails, i, true),
        None => match first_free(rails) {
            Some(i) => (rails, i, false),
            None => (rails.push(None), rails.len() as int, false),
        },
    }
}

/// Is `oid` already expected by some rail strictly left of rail `k`?
pub open spec fn expected_left_of(
    rails: Seq<Option<RailEntryModel>>,
    k: int,
    oid: Seq<char>,
) -> bool {
    exists|j: int| 0 <= j < k && expects(rails[j], oid)
}

/// The parents of a commit that have no rail strictly left of rail `k`
/// already expecting them, in the order they are listed by the commit.
pub open spec fn unplaced_parents(
    rails: Seq<Option<RailEntryModel>>,
    k: int,
    parents: Seq<Seq<char>>,
) -> Seq<Seq<char>>
    decreases parents.len(),
{
    if parents.len() == 0 {
        Seq::empty()
    } else {
        let init = unplaced_parents(rails, k, parents.drop_last());
        if expected_left_of(rails, k, parents.last()) {
            init
        } else {
            init.push(parents.last())
        }
    }
}

/// Place every parent on its rail (leftmost expecting, else leftmost free,
/// else appended), and collect the rails other than `my_rail` in order: the
/// outgoing merge edges of the row.
pub open spec fn place_parents(
    rails: Seq<Option<RailEntryModel>>,
    my_rail: int,
    parents: Seq<Seq<char>>,
) -> (Seq<Option<RailEntryModel>>, Seq<int>)
    decreases parents.len(),
{
    if parents.len() == 0 {
        (rails, Seq::empty())
    } else {
        let found = find_rail(rails, parents[0]);
        let updated = found.0.update(
            found.1,
            Some(
                RailEntryModel {
                    expected_parent: parents[0],
                    has_through_line: found.2 && found.1 != my_rail,
                },
            ),
        );
        let rest = place_parents(updated, my_rail, parents.drop_first());
        (rest.0, if found.1 == my_rail {
            rest.1
        } else {
            seq![found.1].add(rest.1)
        })
    }
}

/// The indices of all rails expecting `oid`, in increasing order.
pub open spec fn rails_expecting(rails: Seq<Option<RailEntryModel>>, oid: Seq<char>) -> Seq<int>
    decreases rails.len(),
{
    if rails.len() == 0 {
        Seq::empty()
    } else {
        let init = rails_expecting(rails.drop_last(), oid);
        if expects(rails.last(), oid) {
            init.push(rails.len() - 1)
        } else {
            init
        }
    }
}

/// Clear every rail whose expectation was satisfied by the current commit,
/// and restamp the through-line flag of the remaining rails: a rail runs
/// through iff the same parent was already expected at the same index in the
/// rail state before the row.
pub open spec fn clear_and_restamp(
    before: Seq<Option<RailEntryModel>>,
    rails: Seq<Option<RailEntryModel>>,
    oid: Seq<char>,
) -> Seq<Option<RailEntryModel>> {
    Seq::new(
        rails.len(),
        |i: int|
            if expects(rails[i], oid) {
                None
            } else {
                match rails[i] {
                    None => None,
                    Some(entry) => Some(
                        RailEntryModel {
                            expected_parent: entry.expected_parent,
                            has_through_line: 0 <= i < before.len() && expects(
                                before[i],
                                entry.expected_parent,
                            ),
                        },
                    ),
                }
            },
    )
}

/// Drop trailing free rails.
pub open spec fn drop_trailing_free(rails: Seq<Option<RailEntryModel>>) -> Seq<
    Option<RailEntryModel>,
>
    decreases rails.len(),
{
    if rails.len() == 0 {
        rails
    } else if rails.last() is Some {
        rails
    } else {
        drop_trailing_free(rails.drop_last())
    }
}

/// The mathematical value of one layout row, together with the rail state
/// left behind for the next row.
#[verifier::ext_equal]
pub ghost struct RowModel {
    pub rail: int,
    pub has_parent_line: bool,
    pub has_child_line: bool,
    pub outgoing: Seq<int>,
    pub incoming: Seq<int>,
    pub rails: Seq<Option<RailEntryModel>>,
}

/// One full step of the layout algorithm: the row emitted for a commit with
/// id `oid` and parent ids `parents`, starting from rail state `rails0`.
pub open spec fn generate_row_model(
    rails0: Seq<Option<RailEntryModel>>,
    oid: Seq<char>,
    parents: Seq<Seq<char>>,
) -> RowModel {
    let found = find_rail(rails0, oid);
    let base = found.0;
    let my_rail = found.1;
    let unplaced = unplaced_parents(base, my_rail, parents);
    let claimed = base.update(
        my_rail,
        if unplaced.len() > 0 {
            Some(RailEntryModel { expected_parent: unplaced[0], has_through_line: false })
        } else {
            None
        },
    );
    let placed = place_parents(claimed, my_rail, parents);
    let incoming = rails_expecting(placed.0, oid);
    let restamped = clear_and_restamp(rails0, placed.0, oid);
    let trimmed = drop_trailing_free(restamped);
    RowModel {
        rail: my_rail,
        has_parent_line: my_rail < trimmed.len() && trimmed[my_rail] is Some,
        has_child_line: found.2,
        outgoing: placed.1,
        incoming,
        rails: trimmed,
    }
}

/// The rows of a whole run over `commits`, starting from `rails0`.
pub open spec fn run_rows(rails0: Seq<Option<RailEntryModel>>, commits: Seq<Commit>) -> Seq<
    RowModel,
>
    decreases commits.len(),
{
    if commits.len() == 0 {
        Seq::empty()
    } else {
        let row = generate_row_model(
            rails0,
            commit_oid(commits[0]),
            commit_parent_oids(commits[0]),
        );
        seq![row].add(run_rows(row.rails, commits.drop_first()))
    }
}

/// The rail state after a whole run over `commits`, starting from `rails0`.
pub open spec fn run_rails(rails0: Seq<Option<RailEntryModel>>, commits: Seq<Commit>) -> Seq<
    Option<RailEntryModel>,
>
    decreases commits.len(),
{
    if commits.len() == 0 {
        rails0
    } else {
        let row = generate_row_model(
            rails0,
            commit_oid(commits[0]),
            commit_parent_oids(commits[0]),
        );
        run_rails(row.rails, commits.drop_first())
    }
}

// ---------------------------------------------------------------------------
// Characterization lemmas for the leftmost-search functions.
// ---------------------------------------------------------------------------

/// The rows of a run, one by one: row `i` is the row the generator emits
/// for commit `i` from the rail state the first `i` commits left behind.
pub proof fn lemma_run_rows_len(
    rails0: Seq<Option<RailEntryModel>>,
    commits: Seq<Commit>,
)
    ensures
        run_rows(rails0, commits).len() == commits.len(),
    decreases commits.len(),
{
    if commits.len() > 0 {
        let head = commits[0];
        let row0 = generate_row_model(rails0, commit_oid(head), commit_parent_oids(head));
        lemma_run_rows_len(row0.rails, commits.drop_first());
    }
}

/// Row `i` of a run is the row for commit `i`, computed from the rail state
/// after the first `i` commits; and that row's rails are the state after the
/// first `i + 1` commits.
pub proof fn lemma_run_index(
    rails0: Seq<Option<RailEntryModel>>,
    commits: Seq<Commit>,
    i: int,
)
    requires
        0 <= i < commits.len(),
    ensures
        run_rows(rails0, commits).len() == commits.len(),
        run_rows(rails0, commits)[i] == generate_row_model(
            run_rails(rails0, commits.take(i)),
            commit_oid(commits[i]),
            commit_parent_oids(commits[i]),
        ),
        run_rails(rails0, commits.take(i + 1)) == run_rows(rails0, commits)[i].rails,
    decreases commits.len(),
{
    lemma_run_rows_len(rails0, commits);
    let head = commits[0];
    let row0 = generate_row_model(rails0, commit_oid(head), commit_parent_oids(head));
    let rest = commits.drop_first();
    if i == 0 {
        reveal_with_fuel(run_rows, 2);
        reveal_with_fuel(run_rails, 2);
        assert(commits.take(0) =~= Seq::<Commit>::empty());
        assert(run_rows(rails0, commits)[0] == row0);
        assert(commits.take(1).len() == 1);
        assert(commits.take(1)[0] == head);
        assert(commits.take(1).drop_first() =~= Seq::<Commit>::empty());
    } else {
        lemma_run_index(row0.rails, rest, i - 1);
        assert(run_rows(rails0, commits)[i] == run_rows(row0.rails, rest)[i - 1]);
        assert(rest[i - 1] == commits[i]);
        assert(commits.take(i).len() == i);
        assert(commits.take(i)[0] == head);
        assert(commits.take(i).drop_first() =~= rest.take(i - 1));
        assert(run_rails(rails0, commits.take(i)) == run_rails(row0.rails, rest.take(i - 1)));
        assert(commits.take(i + 1).len() == i + 1);
        assert(commits.take(i + 1)[0] == head);
        assert(commits.take(i + 1).drop_first() =~= rest.take(i));
        assert(run_rails(rails0, commits.take(i + 1)) == run_rails(row0.rails, rest.take(i)));
    }
}


/// `first_expecting` returns the smallest index whose rail expects `oid`.
pub proof fn lemma_first_expecting(rails: Seq<Option<RailEntryModel>>, oid: Seq<char>)
    ensures
        match first_expecting(rails, oid) {
            Some(i) => 0 <= i < rails.len() && expects(rails[i], oid) && forall|j: int|
                0 <= j < i ==> !expects(rails[j], oid),
            None => forall|j: int| 0 <= j < rails.len() ==> !expects(rails[j], oid),
        },
    decreases rails.len(),
{
    if rails.len() > 0 && !expects(rails[0], oid) {
        let rest = rails.drop_first();
        lemma_first_expecting(rest, oid);
        match first_expecting(rest, oid) {
            Some(i) => {
                assert(rails[i + 1] == rest[i]);
                assert forall|j: int| 0 <= j < i + 1 implies !expects(rails[j], oid) by {
                    if j >= 1 {
                        assert(rails[j] == rest[j - 1]);
                    }
                }
            },
            None => {
                assert forall|j: int| 0 <= j < rails.len() implies !expects(rails[j], oid) by {
                    if j >= 1 {
                        assert(rails[j] == rest[j - 1]);
                    }
                }
            },
        }
    }
}

/// `first_free` returns the smallest index whose rail is free.
pub proof fn lemma_first_free(rails: Seq<Option<RailEntryModel>>)
    ensures
        match first_free(rails) {
            Some(i) => 0 <= i < rails.len() && rails[i] is None && forall|j: int|
                0 <= j < i ==> rails[j] is Some,
            None => forall|j: int| 0 <= j < rails.len() ==> rails[j] is Some,
        },
    decreases rails.len(),
{
    if rails.len() > 0 && !(rails[0] is None) {
        let rest = rails.drop_first();
        lemma_first_free(rest);
        match first_free(rest) {
            Some(i) => {
                assert(rails[i + 1] == rest[i]);
                assert forall|j: int| 0 <= j < i + 1 implies rails[j] is Some by {
                    if j >= 1 {
                        assert(rails[j] == rest[j - 1]);
                    }
                }
            },
            None => {
                assert forall|j: int| 0 <= j < rails.len() implies rails[j] is Some by {
                    if j >= 1 {
                        assert(rails[j] == rest[j - 1]);
                    }
                }
            },
        }
    }
}

// ---------------------------------------------------------------------------
// Executable helpers.
// ---------------------------------------------------------------------------

/// Does this rail expect exactly the given id?
pub fn contains(rail: &Option<RailEntry>, oid: &String) -> (r: bool)
    ensures
        r == expects(rail_model(*rail), oid@),
{
    match rail {
        Some(entry) => entry.expected_parent == *oid,
        None => false,
    }
}

/// Find the leftmost rail that expects `for_id`, or (if none does) the
/// leftmost free rail, appending a new rail if necessary.  Returns the rail
/// index and whether the id was expected there.
pub fn find_leftmost_rail(rails: &mut Vec<Rail>, for_id: &String) -> (res: (usize, bool))
    ensures
        ({
            let found = find_rail(rails_model(old(rails)@), for_id@);
            &&& rails_model(final(rails)@) == found.0
            &&& res.0 as int == found.1
            &&& res.1 == found.2
            &&& (res.0 as int) < final(rails)@.len()
            &&& (final(rails)@ == old(rails)@ || final(rails)@ == old(rails)@.push(None))
        }),
{
    let ghost rails0 = rails_model(rails@);
    proof {
        lemma_first_expecting(rails0, for_id@);
        lemma_first_free(rails0);
    }
    let mut i: usize = 0;
    let n = rails.len();
    while i < n
        invariant
            n == rails@.len(),
            i <= n,
            rails0 == rails_model(rails@),
            forall|j: int| 0 <= j < i ==> !expects(rails0[j], for_id@),
        decreases n - i,
    {
        if contains(&rails[i], for_id) {
            proof {
                lemma_first_expecting(rails0, for_id@);
                assert(expects(rails0[i as int], for_id@));
                assert(first_expecting(rails0, for_id@) == Some(i as int));
            }
            return (i, true);
        }
        i += 1;
    }
    proof {
        assert(first_expecting(rails0, for_id@) is None);
    }
    let mut k: usize = 0;
    while k < n
        invariant
            n == rails@.len(),
            k <= n,
            rails0 == rails_model(rails@),
            first_expecting(rails0, for_id@) is None,
            forall|j: int| 0 <= j < k ==> rails0[j] is Some,
        decreases n - k,
    {
        if rails[k].is_none() {
            proof {
                lemma_first_expecting(rails0, for_id@);
                lemma_first_free(rails0);
                assert(rails0[k as int] is None);
                assert(first_free(rails0) == Some(k as int));
            }
            return (k, false);
        }
        k += 1;
    }
    proof {
        assert(first_free(rails0) is None);
    }
    rails.push(None);
    proof {
        assert(rails_model(rails@) =~= rails0.push(None));
    }
    (n, false)
}


// ---------------------------------------------------------------------------
// Properties of the layout algorithm.
// ---------------------------------------------------------------------------

/// Determinism: a run of the generator is a function of the starting rail
/// state and the commit sequence alone, so two independent runs from the
/// same state over the same commits produce identical row sequences.
/// (`next` is proved to return exactly the model row, so this carries over
/// to the executable generator.)
pub proof fn lemma_generator_deterministic(
    rails0: Seq<Option<RailEntryModel>>,
    commits: Seq<Commit>,
    rows1: Seq<RowModel>,
    rows2: Seq<RowModel>,
)
    requires
        rows1 == run_rows(rails0, commits),
        rows2 == run_rows(rails0, commits),
    ensures
        rows1 == rows2,
{
}

/// Dropping trailing free rails keeps a prefix: every surviving rail is
/// unchanged.
pub proof fn lemma_drop_trailing_free_prefix(rails: Seq<Option<RailEntryModel>>)
    ensures
        drop_trailing_free(rails).len() <= rails.len(),
        forall|i: int|
            0 <= i < drop_trailing_free(rails).len() ==> drop_trailing_free(rails)[i]
                == rails[i],
    decreases rails.len(),
{
    if rails.len() > 0 && !(rails.last() is Some) {
        lemma_drop_trailing_free_prefix(rails.drop_last());
        assert forall|i: int|
            0 <= i < drop_trailing_free(rails).len() implies drop_trailing_free(rails)[i]
            == rails[i] by {
            assert(drop_trailing_free(rails)[i] == drop_trailing_free(rails.drop_last())[i]);
            assert(rails.drop_last()[i] == rails[i]);
        }
    }
}

/// Root termination: a commit without parents frees its own rail — the row
/// has no parent line, and the rail it sat on is empty afterwards.
pub proof fn lemma_root_terminates(rails0: Seq<Option<RailEntryModel>>, oid: Seq<char>)
    ensures
        ({
            let m = generate_row_model(rails0, oid, Seq::<Seq<char>>::empty());
            &&& !m.has_parent_line
            &&& m.rail < m.rails.len() ==> m.rails[m.rail] is None
        }),
{
    let f = find_rail(rails0, oid);
    lemma_first_expecting(rails0, oid);
    lemma_first_free(rails0);
    let base = f.0;
    let my_rail = f.1;
    assert(0 <= my_rail < base.len());
    assert(unplaced_parents(base, my_rail, Seq::<Seq<char>>::empty()).len() == 0);
    let claimed = base.update(my_rail, None);
    assert(place_parents(claimed, my_rail, Seq::<Seq<char>>::empty()).0 == claimed);
    let restamped = clear_and_restamp(rails0, claimed, oid);
    assert(restamped[my_rail] is None);
    lemma_drop_trailing_free_prefix(restamped);
}


/// Placing parents never shortens the rail state.
pub proof fn lemma_place_parents_len(
    rails: Seq<Option<RailEntryModel>>,
    my_rail: int,
    parents: Seq<Seq<char>>,
)
    ensures
        place_parents(rails, my_rail, parents).0.len() >= rails.len(),
    decreases parents.len(),
{
    if parents.len() > 0 {
        let f = find_rail(rails, parents[0]);
        lemma_first_expecting(rails, parents[0]);
        lemma_first_free(rails);
        let updated = f.0.update(
            f.1,
            Some(
                RailEntryModel {
                    expected_parent: parents[0],
                    has_through_line: f.2 && f.1 != my_rail,
                },
            ),
        );
        lemma_place_parents_len(updated, my_rail, parents.drop_first());
    }
}

/// A rail that expects an id keeps expecting it through parent placement:
/// a placement only ever overwrites a rail with the id it already expected,
/// or fills a free rail.
pub proof fn lemma_place_parents_preserves(
    rails: Seq<Option<RailEntryModel>>,
    my_rail: int,
    parents: Seq<Seq<char>>,
    i: int,
    x: Seq<char>,
)
    requires
        0 <= i < rails.len(),
        expects(rails[i], x),
    ensures
        i < place_parents(rails, my_rail, parents).0.len(),
        expects(place_parents(rails, my_rail, parents).0[i], x),
    decreases parents.len(),
{
    lemma_place_parents_len(rails, my_rail, parents);
    if parents.len() > 0 {
        let f = find_rail(rails, parents[0]);
        lemma_first_expecting(rails, parents[0]);
        lemma_first_free(rails);
        let updated = f.0.update(
            f.1,
            Some(
                RailEntryModel {
                    expected_parent: parents[0],
                    has_through_line: f.2 && f.1 != my_rail,
                },
            ),
        );
        assert(expects(updated[i], x));
        lemma_place_parents_preserves(updated, my_rail, parents.drop_first(), i, x);
    }
}

/// After parent placement, every parent is expected by some rail.
pub proof fn lemma_place_parents_places(
    rails: Seq<Option<RailEntryModel>>,
    my_rail: int,
    parents: Seq<Seq<char>>,
    j: int,
)
    requires
        0 <= j < parents.len(),
    ensures
        exists|q: int|
            0 <= q < place_parents(rails, my_rail, parents).0.len() && expects(
                #[trigger] place_parents(rails, my_rail, parents).0[q],
                parents[j],
            ),
    decreases parents.len(),
{
    let f = find_rail(rails, parents[0]);
    lemma_first_expecting(rails, parents[0]);
    lemma_first_free(rails);
    let updated = f.0.update(
        f.1,
        Some(
            RailEntryModel {
                expected_parent: parents[0],
                has_through_line: f.2 && f.1 != my_rail,
            },
        ),
    );
    let rest = place_parents(updated, my_rail, parents.drop_first());
    assert(place_parents(rails, my_rail, parents).0 == rest.0);
    if j == 0 {
        assert(0 <= f.1 < updated.len());
        assert(expects(updated[f.1], parents[0]));
        lemma_place_parents_preserves(updated, my_rail, parents.drop_first(), f.1, parents[0]);
        assert(expects(place_parents(rails, my_rail, parents).0[f.1], parents[j]));
    } else {
        lemma_place_parents_places(updated, my_rail, parents.drop_first(), j - 1);
        assert(parents.drop_first()[j - 1] == parents[j]);
        let q = choose|q: int|
            0 <= q < rest.0.len() && expects(#[trigger] rest.0[q], parents.drop_first()[j - 1]);
        assert(expects(place_parents(rails, my_rail, parents).0[q], parents[j]));
    }
}

/// `rails_expecting` collects every index whose rail expects the id.
pub proof fn lemma_rails_expecting_contains(
    rails: Seq<Option<RailEntryModel>>,
    oid: Seq<char>,
    i: int,
)
    requires
        0 <= i < rails.len(),
        expects(rails[i], oid),
    ensures
        rails_expecting(rails, oid).contains(i),
    decreases rails.len(),
{
    if i == rails.len() - 1 {
        let collected = rails_expecting(rails, oid);
        assert(collected.last() == i);
        assert(collected[collected.len() - 1] == i);
    } else {
        assert(rails.drop_last()[i] == rails[i]);
        lemma_rails_expecting_contains(rails.drop_last(), oid, i);
        let init = rails_expecting(rails.drop_last(), oid);
        let w = choose|w: int| 0 <= w < init.len() && init[w] == i;
        assert(rails_expecting(rails, oid)[w] == i);
    }
}

/// A non-empty rail survives the trailing cleanup.
pub proof fn lemma_trailing_keeps_nonempty(rails: Seq<Option<RailEntryModel>>, i: int)
    requires
        0 <= i < rails.len(),
        rails[i] is Some,
    ensures
        i < drop_trailing_free(rails).len(),
    decreases rails.len(),
{
    if !(rails.last() is Some) {
        assert(rails.drop_last()[i] == rails[i]);
        lemma_trailing_keeps_nonempty(rails.drop_last(), i);
    }
}

/// A rail expecting a commit other than the one being laid out keeps its
/// expectation through the whole row, at the same index.
pub proof fn lemma_row_preserves_expectation(
    rails0: Seq<Option<RailEntryModel>>,
    oid: Seq<char>,
    parents: Seq<Seq<char>>,
    i: int,
    x: Seq<char>,
)
    requires
        0 <= i < rails0.len(),
        expects(rails0[i], x),
        x != oid,
    ensures
        ({
            let m = generate_row_model(rails0, oid, parents);
            i < m.rails.len() && expects(m.rails[i], x)
        }),
{
    let f = find_rail(rails0, oid);
    lemma_first_expecting(rails0, oid);
    lemma_first_free(rails0);
    let base = f.0;
    let my_rail = f.1;
    assert(base[i] == rails0[i]);
    assert(i != my_rail);
    let unplaced = unplaced_parents(base, my_rail, parents);
    let claimed = base.update(
        my_rail,
        if unplaced.len() > 0 {
            Some(RailEntryModel { expected_parent: unplaced[0], has_through_line: false })
        } else {
            None
        },
    );
    assert(expects(claimed[i], x));
    lemma_place_parents_preserves(claimed, my_rail, parents, i, x);
    let placed = place_parents(claimed, my_rail, parents).0;
    let restamped = clear_and_restamp(rails0, placed, oid);
    assert(expects(restamped[i], x));
    lemma_trailing_keeps_nonempty(restamped, i);
    lemma_drop_trailing_free_prefix(restamped);
}

/// Every rail that expected the commit being laid out is accounted for: it
/// is the commit's own rail, or it appears in the row's `incoming`.
pub proof fn lemma_row_collects_expectation(
    rails0: Seq<Option<RailEntryModel>>,
    oid: Seq<char>,
    parents: Seq<Seq<char>>,
    p: int,
)
    requires
        0 <= p < rails0.len(),
        expects(rails0[p], oid),
    ensures
        ({
            let m = generate_row_model(rails0, oid, parents);
            p == m.rail || m.incoming.contains(p)
        }),
{
    let f = find_rail(rails0, oid);
    lemma_first_expecting(rails0, oid);
    lemma_first_free(rails0);
    let base = f.0;
    let my_rail = f.1;
    if p != my_rail {
        assert(base[p] == rails0[p]);
        let unplaced = unplaced_parents(base, my_rail, parents);
        let claimed = base.update(
            my_rail,
            if unplaced.len() > 0 {
                Some(RailEntryModel { expected_parent: unplaced[0], has_through_line: false })
            } else {
                None
            },
        );
        assert(expects(claimed[p], oid));
        lemma_place_parents_preserves(claimed, my_rail, parents, p, oid);
        let placed = place_parents(claimed, my_rail, parents).0;
        lemma_rails_expecting_contains(placed, oid, p);
    }
}

/// After a row, every parent the commit listed (other than its own id) is
/// expected by some rail.
pub proof fn lemma_row_places_parent(
    rails0: Seq<Option<RailEntryModel>>,
    oid: Seq<char>,
    parents: Seq<Seq<char>>,
    j: int,
)
    requires
        0 <= j < parents.len(),
        parents[j] != oid,
    ensures
        ({
            let m = generate_row_model(rails0, oid, parents);
            exists|q: int| 0 <= q < m.rails.len() && expects(#[trigger] m.rails[q], parents[j])
        }),
{
    let f = find_rail(rails0, oid);
    lemma_first_expecting(rails0, oid);
    lemma_first_free(rails0);
    let base = f.0;
    let my_rail = f.1;
    let unplaced = unplaced_parents(base, my_rail, parents);
    let claimed = base.update(
        my_rail,
        if unplaced.len() > 0 {
            Some(RailEntryModel { expected_parent: unplaced[0], has_through_line: false })
        } else {
            None
        },
    );
    lemma_place_parents_places(claimed, my_rail, parents, j);
    let placed = place_parents(claimed, my_rail, parents).0;
    let q = choose|q: int| 0 <= q < placed.len() && expects(#[trigger] placed[q], parents[j]);
    let restamped = clear_and_restamp(rails0, placed, oid);
    assert(expects(restamped[q], parents[j]));
    lemma_trailing_keeps_nonempty(restamped, q);
    lemma_drop_trailing_free_prefix(restamped);
    let m = generate_row_model(rails0, oid, parents);
    assert(expects(m.rails[q], parents[j]));
}

/// An expectation left on a rail persists, at the same index, across every
/// row whose commit carries a different id.
pub proof fn lemma_run_preserves_expectation(
    rails0: Seq<Option<RailEntryModel>>,
    commits: Seq<Commit>,
    l0: int,
    l1: int,
    q: int,
    x: Seq<char>,
)
    requires
        0 <= l0 <= l1 <= commits.len(),
        0 <= q < run_rails(rails0, commits.take(l0)).len(),
        expects(run_rails(rails0, commits.take(l0))[q], x),
        forall|l: int| l0 <= l < l1 ==> commit_oid(commits[l]) != x,
    ensures
        q < run_rails(rails0, commits.take(l1)).len(),
        expects(run_rails(rails0, commits.take(l1))[q], x),
    decreases l1 - l0,
{
    if l0 < l1 {
        lemma_run_index(rails0, commits, l0);
        lemma_row_preserves_expectation(
            run_rails(rails0, commits.take(l0)),
            commit_oid(commits[l0]),
            commit_parent_oids(commits[l0]),
            q,
            x,
        );
        lemma_run_preserves_expectation(rails0, commits, l0 + 1, l1, q, x);
    }
}

/// Incoming/outgoing symmetry: when commit `j` lists the id of commit `k`
/// (laid out later) as a parent, row `j` leaves at least one rail expecting
/// that id, and at row `k` every rail still expecting it is either the rail
/// commit `k` sits on or is listed in row `k`'s `incoming` — every edge
/// leaving a row arrives at its other end. Commit ids are assumed unique in
/// the window, as they are in any real walk.
pub proof fn lemma_edge_symmetry(
    rails0: Seq<Option<RailEntryModel>>,
    commits: Seq<Commit>,
    j: int,
    k: int,
)
    requires
        0 <= j < k < commits.len(),
        commit_parent_oids(commits[j]).contains(commit_oid(commits[k])),
        forall|l: int|
            0 <= l < commits.len() && l != k ==> commit_oid(commits[l]) != commit_oid(
                commits[k],
            ),
    ensures
        ({
            let rows = run_rows(rails0, commits);
            let a = commit_oid(commits[k]);
            &&& exists|q: int|
                0 <= q < rows[j].rails.len() && expects(#[trigger] rows[j].rails[q], a)
            &&& forall|q: int|
                0 <= q < rows[j].rails.len() && expects(rows[j].rails[q], a) ==> q
                    == rows[k].rail || rows[k].incoming.contains(q)
        }),
{
    let rows = run_rows(rails0, commits);
    let a = commit_oid(commits[k]);
    lemma_run_index(rails0, commits, j);
    lemma_run_index(rails0, commits, k);
    let pj = commit_parent_oids(commits[j]);
    let jj = choose|t: int| 0 <= t < pj.len() && pj[t] == a;
    assert(commit_oid(commits[j]) != a);
    lemma_row_places_parent(run_rails(rails0, commits.take(j)), commit_oid(commits[j]), pj, jj);
    assert(rows[j].rails == run_rails(rails0, commits.take(j + 1)));
    assert(exists|q: int| 0 <= q < rows[j].rails.len() && expects(#[trigger] rows[j].rails[q], a));
    assert forall|q: int|
        0 <= q < rows[j].rails.len() && expects(rows[j].rails[q], a) implies q == rows[k].rail
        || rows[k].incoming.contains(q) by {
        lemma_run_preserves_expectation(rails0, commits, j + 1, k, q, a);
        lemma_row_collects_expectation(
            run_rails(rails0, commits.take(k)),
            a,
            commit_parent_oids(commits[k]),
            q,
        );
    }
}


/// The number of occupied rails.
pub open spec fn count_occupied(rails: Seq<Option<RailEntryModel>>) -> int
    decreases rails.len(),
{
    if rails.len() == 0 {
        0
    } else {
        count_occupied(rails.drop_last()) + if rails.last() is Some {
            1int
        } else {
            0int
        }
    }
}

/// Updating one rail changes the count by the difference of the two slots.
proof fn lemma_count_update(rails: Seq<Option<RailEntryModel>>, i: int, v: Option<RailEntryModel>)
    requires
        0 <= i < rails.len(),
    ensures
        count_occupied(rails.update(i, v)) == count_occupied(rails) - (
        if rails[i] is Some {
            1int
        } else {
            0int
        }) + (if v is Some {
            1int
        } else {
            0int
        }),
    decreases rails.len(),
{
    if i == rails.len() - 1 {
        assert(rails.update(i, v).drop_last() =~= rails.drop_last());
    } else {
        assert(rails.update(i, v).drop_last() =~= rails.drop_last().update(i, v));
        assert(rails.drop_last()[i] == rails[i]);
        lemma_count_update(rails.drop_last(), i, v);
    }
}

/// Appending a free rail keeps the count.
proof fn lemma_count_push_free(rails: Seq<Option<RailEntryModel>>)
    ensures
        count_occupied(rails.push(None)) == count_occupied(rails),
{
    assert(rails.push(None).drop_last() =~= rails);
}

/// Clearing the satisfied rails removes exactly the collected ones from the
/// count.
proof fn lemma_restamp_count(
    before: Seq<Option<RailEntryModel>>,
    rails: Seq<Option<RailEntryModel>>,
    oid: Seq<char>,
)
    ensures
        count_occupied(clear_and_restamp(before, rails, oid)) + rails_expecting(
            rails,
            oid,
        ).len() == count_occupied(rails),
    decreases rails.len(),
{
    if rails.len() > 0 {
        let restamped = clear_and_restamp(before, rails, oid);
        assert(restamped.drop_last() =~= clear_and_restamp(before, rails.drop_last(), oid));
        lemma_restamp_count(before, rails.drop_last(), oid);
        assert(restamped.last() == restamped[rails.len() - 1]);
    }
}

/// Dropping trailing free rails keeps the count.
proof fn lemma_trailing_count(rails: Seq<Option<RailEntryModel>>)
    ensures
        count_occupied(drop_trailing_free(rails)) == count_occupied(rails),
    decreases rails.len(),
{
    if rails.len() > 0 && !(rails.last() is Some) {
        lemma_trailing_count(rails.drop_last());
    }
}

/// Placing parents occupies at most one extra rail per parent.
proof fn lemma_place_count(
    rails: Seq<Option<RailEntryModel>>,
    my_rail: int,
    parents: Seq<Seq<char>>,
)
    ensures
        count_occupied(place_parents(rails, my_rail, parents).0) <= count_occupied(rails)
            + parents.len(),
    decreases parents.len(),
{
    if parents.len() > 0 {
        let f = find_rail(rails, parents[0]);
        lemma_first_expecting(rails, parents[0]);
        lemma_first_free(rails);
        let v = Some(
            RailEntryModel {
                expected_parent: parents[0],
                has_through_line: f.2 && f.1 != my_rail,
            },
        );
        let updated = f.0.update(f.1, v);
        if f.2 || first_free(rails) is Some {
            lemma_count_update(rails, f.1, v);
        } else {
            lemma_count_push_free(rails);
            lemma_count_update(rails.push(None), f.1, v);
        }
        lemma_place_count(updated, my_rail, parents.drop_first());
    }
}

/// Placing parents one of which is already expected somewhere occupies at
/// most `parents.len() - 1` extra rails: that parent's placement lands on
/// the rail already expecting it.
proof fn lemma_place_count_expected(
    rails: Seq<Option<RailEntryModel>>,
    my_rail: int,
    parents: Seq<Seq<char>>,
    p: Seq<char>,
)
    requires
        parents.contains(p),
        exists|i: int| 0 <= i < rails.len() && expects(#[trigger] rails[i], p),
    ensures
        count_occupied(place_parents(rails, my_rail, parents).0) <= count_occupied(rails)
            + parents.len() - 1,
    decreases parents.len(),
{
    let f = find_rail(rails, parents[0]);
    lemma_first_expecting(rails, parents[0]);
    lemma_first_free(rails);
    let v = Some(
        RailEntryModel {
            expected_parent: parents[0],
            has_through_line: f.2 && f.1 != my_rail,
        },
    );
    let updated = f.0.update(f.1, v);
    if parents[0] == p {
        assert(f.2);
        lemma_count_update(rails, f.1, v);
        assert(count_occupied(updated) == count_occupied(rails));
        lemma_place_count(updated, my_rail, parents.drop_first());
    } else {
        if f.2 || first_free(rails) is Some {
            lemma_count_update(rails, f.1, v);
        } else {
            lemma_count_push_free(rails);
            lemma_count_update(rails.push(None), f.1, v);
        }
        let i = choose|i: int| 0 <= i < rails.len() && expects(#[trigger] rails[i], p);
        assert(expects(updated[i], p));
        let t = choose|t: int| 0 <= t < parents.len() && parents[t] == p;
        assert(parents.drop_first()[t - 1] == p);
        assert(parents.drop_first().contains(p));
        lemma_place_count_expected(updated, my_rail, parents.drop_first(), p);
    }
}

/// The first unplaced parent is one of the commit's parents.
proof fn lemma_unplaced_in_parents(
    rails: Seq<Option<RailEntryModel>>,
    k: int,
    parents: Seq<Seq<char>>,
)
    requires
        unplaced_parents(rails, k, parents).len() > 0,
    ensures
        parents.contains(unplaced_parents(rails, k, parents)[0]),
    decreases parents.len(),
{
    let init = unplaced_parents(rails, k, parents.drop_last());
    if init.len() > 0 {
        lemma_unplaced_in_parents(rails, k, parents.drop_last());
        let t = choose|t: int|
            0 <= t < parents.drop_last().len() && parents.drop_last()[t] == init[0];
        assert(parents[t] == init[0]);
        assert(unplaced_parents(rails, k, parents)[0] == init[0]);
    } else {
        assert(unplaced_parents(rails, k, parents)[0] == parents.last());
        assert(parents[parents.len() - 1] == parents.last());
    }
}

/// Rail conservation: after a row, the number of occupied rails together
/// with the rails the row cleared (its `incoming`) never exceeds the
/// occupied rails before the row plus the parents the commit introduced.
pub proof fn lemma_rail_conservation(
    rails0: Seq<Option<RailEntryModel>>,
    oid: Seq<char>,
    parents: Seq<Seq<char>>,
)
    ensures
        ({
            let m = generate_row_model(rails0, oid, parents);
            count_occupied(m.rails) + m.incoming.len() <= count_occupied(rails0) + parents.len()
        }),
{
    let f = find_rail(rails0, oid);
    lemma_first_expecting(rails0, oid);
    lemma_first_free(rails0);
    let base = f.0;
    let my_rail = f.1;
    if !(f.2 || first_free(rails0) is Some) {
        lemma_count_push_free(rails0);
    }
    assert(count_occupied(base) == count_occupied(rails0));
    let unplaced = unplaced_parents(base, my_rail, parents);
    let claim = if unplaced.len() > 0 {
        Some(RailEntryModel { expected_parent: unplaced[0], has_through_line: false })
    } else {
        None
    };
    let claimed = base.update(my_rail, claim);
    lemma_count_update(base, my_rail, claim);
    let placed = place_parents(claimed, my_rail, parents).0;
    if unplaced.len() > 0 {
        assert(count_occupied(claimed) <= count_occupied(base) + 1);
        lemma_unplaced_in_parents(base, my_rail, parents);
        assert(expects(claimed[my_rail], unplaced[0]));
        lemma_place_count_expected(claimed, my_rail, parents, unplaced[0]);
    } else {
        assert(count_occupied(claimed) <= count_occupied(base));
        lemma_place_count(claimed, my_rail, parents);
    }
    assert(count_occupied(placed) <= count_occupied(base) + parents.len());
    lemma_restamp_count(rails0, placed, oid);
    lemma_trailing_count(clear_and_restamp(rails0, placed, oid));
}

// ---------------------------------------------------------------------------
// The generator.
// ---------------------------------------------------------------------------

/// The streaming layout generator: it consumes one commit at a time and
/// emits one layout row per commit, keeping the rail state across calls.
pub struct GraphGenerator {
    rails: Vec<Rail>,
}

impl GraphGenerator {
    /// The mathematical value of the current rail state.
    pub closed spec fn rails_view(&self) -> Seq<Option<RailEntryModel>> {
        rails_model(self.rails@)
    }

    /// A generator starting from the given rail state, or from no rails.
    pub fn new(rails: Option<Vec<Rail>>) -> (generator: GraphGenerator)
        ensures
            generator.rails_view() == match rails {
                Some(r) => rails_model(r@),
                None => Seq::<Option<RailEntryModel>>::empty(),
            },
    {
        let start: Vec<Rail> = match rails {
            Some(r) => r,
            None => Vec::new(),
        };
        proof {
            assert(rails_model(Seq::<Rail>::empty()) =~= Seq::<Option<RailEntryModel>>::empty());
        }
        GraphGenerator { rails: start }
    }

    /// Lay out one commit: emit its row and advance the rail state.  The row
    /// and the new rail state are exactly the ones `generate_row_model`
    /// describes for the commit's id and parent ids.
    pub fn next(&mut self, commit: Commit) -> (row: LayoutListEntry)
        ensures
            ({
                let m = generate_row_model(
                    old(self).rails_view(),
                    commit_oid(commit),
                    commit_parent_oids(commit),
                );
                &&& row.rail as int == m.rail
                &&& row.has_parent_line == m.has_parent_line
                &&& row.has_child_line == m.has_child_line
                &&& row.outgoing@.map_values(|v: usize| v as int) == m.outgoing
                &&& row.incoming@.map_values(|v: usize| v as int) == m.incoming
                &&& rails_model(row.rails@) == m.rails
                &&& final(self).rails_view() == m.rails
                &&& row.commit == commit
            }),
    {
        let ghost rails_before = rails_model(self.rails@);
        let ghost oidv = commit_oid(commit);
        let ghost m = generate_row_model(rails_before, oidv, commit_parent_oids(commit));

        // Plain copies of the commit's id and parent ids.
        let oid: String = commit.id().clone();
        let parent_refs = commit.parent_refs();
        let mut parent_ids: Vec<String> = Vec::new();
        let mut pi: usize = 0;
        while pi < parent_refs.len()
            invariant
                pi <= parent_refs@.len(),
                parent_ids@.len() == pi,
                forall|j: int| 0 <= j < pi ==> parent_ids@[j]@ == parent_refs@[j].oid@,
            decreases parent_refs@.len() - pi,
        {
            parent_ids.push(parent_refs[pi].oid.clone());
            pi += 1;
        }
        let ghost pviews = parent_ids@.map_values(|s: String| s@);
        proof {
            assert(pviews =~= commit_parent_oids(commit));
        }

        // The rail state before this row, for the through-line comparison.
        let old_rails = duplicate_rails(&self.rails);

        // 1. Find the rail for this commit: the leftmost rail expecting it,
        //    else the leftmost free rail.
        let (my_rail, has_child) = find_leftmost_rail(&mut self.rails, &oid);
        let ghost found = find_rail(rails_before, oidv);
        let ghost base = found.0;

        // 2. Which parents have no rail strictly left of ours yet?
        let ghost unplaced_spec = unplaced_parents(base, found.1, pviews);
        let mut unplaced: Vec<String> = Vec::new();
        let mut ui: usize = 0;
        proof {
            assert(unplaced@.map_values(|s: String| s@) =~= unplaced_parents(
                base,
                found.1,
                pviews.take(0),
            ));
        }
        while ui < parent_ids.len()
            invariant
                ui <= parent_ids@.len(),
                pviews == parent_ids@.map_values(|s: String| s@),
                rails_model(self.rails@) == base,
                my_rail as int == found.1,
                my_rail < self.rails@.len(),
                unplaced@.map_values(|s: String| s@) == unplaced_parents(
                    base,
                    found.1,
                    pviews.take(ui as int),
                ),
            decreases parent_ids@.len() - ui,
        {
            let mut found_left = false;
            let mut j: usize = 0;
            while j < my_rail
                invariant
                    j <= my_rail,
                    my_rail < self.rails@.len(),
                    rails_model(self.rails@) == base,
                    ui < parent_ids@.len(),
                    pviews == parent_ids@.map_values(|s: String| s@),
                    found_left == exists|t: int|
                        0 <= t < j && expects(base[t], pviews[ui as int]),
                decreases my_rail - j,
            {
                let here = contains(&self.rails[j], &parent_ids[ui]);
                proof {
                    if here {
                        assert(expects(base[j as int], pviews[ui as int]));
                        assert(exists|t: int|
                            0 <= t < j + 1 && expects(base[t], pviews[ui as int]));
                    } else if found_left {
                        let t0 = choose|t: int|
                            0 <= t < j && expects(base[t], pviews[ui as int]);
                        assert(exists|t: int|
                            0 <= t < j + 1 && expects(base[t], pviews[ui as int]));
                    }
                }
                if here {
                    found_left = true;
                }
                j += 1;
            }
            proof {
                assert(found_left == expected_left_of(base, found.1, pviews[ui as int]));
            }
            if !found_left {
                unplaced.push(parent_ids[ui].clone());
            }
            proof {
                assert(pviews.take(ui + 1).drop_last() =~= pviews.take(ui as int));
                assert(pviews.take(ui + 1).last() == pviews[ui as int]);
                assert(unplaced@.map_values(|s: String| s@) =~= unplaced_parents(
                    base,
                    found.1,
                    pviews.take(ui + 1),
                ));
            }
            ui += 1;
        }
        proof {
            assert(pviews.take(parent_ids@.len() as int) =~= pviews);
            assert(unplaced@.map_values(|s: String| s@) == unplaced_spec);
        }

        // 3. Claim our own rail for the first unplaced parent (or free it if
        //    there is none: a root commit terminates its rail).
        let claim: Rail = if unplaced.len() > 0 {
            Some(
                RailEntry {
                    expected_parent: unplaced[0].clone(),
                    has_through_line: false,
                },
            )
        } else {
            None
        };
        self.rails.set(my_rail, claim);
        let ghost claimed = base.update(
            found.1,
            if unplaced_spec.len() > 0 {
                Some(RailEntryModel { expected_parent: unplaced_spec[0], has_through_line: false })
            } else {
                None
            },
        );
        proof {
            assert(rails_model(self.rails@) =~= claimed);
        }

        // 4. Place every parent as far left as possible; every placement away
        //    from our own rail is an outgoing merge edge.
        let ghost placed = place_parents(claimed, found.1, pviews);
        let mut outgoing: Vec<usize> = Vec::new();
        let mut i: usize = 0;
        proof {
            assert(pviews.skip(0) =~= pviews);
        }
        while i < parent_ids.len()
            invariant
                i <= parent_ids@.len(),
                pviews == parent_ids@.map_values(|s: String| s@),
                my_rail as int == found.1,
                placed == place_parents(claimed, found.1, pviews),
                ({
                    let rem = place_parents(
                        rails_model(self.rails@),
                        found.1,
                        pviews.skip(i as int),
                    );
                    &&& rem.0 == placed.0
                    &&& outgoing@.map_values(|v: usize| v as int).add(rem.1) == placed.1
                }),
            decreases parent_ids@.len() - i,
        {
            let ghost cur = rails_model(self.rails@);
            let (parent_rail, has_tl) = find_leftmost_rail(&mut self.rails, &parent_ids[i]);
            let entry = RailEntry {
                expected_parent: parent_ids[i].clone(),
                has_through_line: has_tl && parent_rail != my_rail,
            };
            self.rails.set(parent_rail, Some(entry));
            proof {
                let pv = pviews[i as int];
                let f = find_rail(cur, pv);
                assert(pviews.skip(i as int)[0] == pv);
                assert(pviews.skip(i as int).drop_first() =~= pviews.skip(i + 1));
                assert(rails_model(self.rails@) =~= f.0.update(
                    f.1,
                    Some(
                        RailEntryModel {
                            expected_parent: pv,
                            has_through_line: f.2 && f.1 != found.1,
                        },
                    ),
                ));
            }
            if parent_rail != my_rail {
                outgoing.push(parent_rail);
            }
            proof {
                let pv = pviews[i as int];
                let f = find_rail(cur, pv);
                let updated = f.0.update(
                    f.1,
                    Some(
                        RailEntryModel {
                            expected_parent: pv,
                            has_through_line: f.2 && f.1 != found.1,
                        },
                    ),
                );
                let rest = place_parents(updated, found.1, pviews.skip(i + 1));
                if f.1 != found.1 {
                    assert(outgoing@.map_values(|v: usize| v as int).add(rest.1)
                        =~= outgoing@.map_values(|v: usize| v as int).drop_last().add(
                        seq![f.1].add(rest.1),
                    ));
                }
            }
            i += 1;
        }
        proof {
            assert(pviews.skip(parent_ids@.len() as int) =~= Seq::<Seq<char>>::empty());
            assert(rails_model(self.rails@) == placed.0);
            assert(outgoing@.map_values(|v: usize| v as int).add(Seq::<int>::empty())
                =~= outgoing@.map_values(|v: usize| v as int));
            assert(outgoing@.map_values(|v: usize| v as int) == placed.1);
        }

        // 5. Incoming edges: all rails whose expectation this commit
        //    satisfies.
        let mut incoming: Vec<usize> = Vec::new();
        let mut r: usize = 0;
        while r < self.rails.len()
            invariant
                r <= self.rails@.len(),
                rails_model(self.rails@) == placed.0,
                oid@ == oidv,
                incoming@.map_values(|v: usize| v as int) == rails_expecting(
                    placed.0.take(r as int),
                    oidv,
                ),
            decreases self.rails@.len() - r,
        {
            if contains(&self.rails[r], &oid) {
                incoming.push(r);
            }
            proof {
                assert(placed.0.take(r + 1).drop_last() =~= placed.0.take(r as int));
                assert(placed.0.take(r + 1).last() == placed.0[r as int]);
                assert(incoming@.map_values(|v: usize| v as int) =~= rails_expecting(
                    placed.0.take(r + 1),
                    oidv,
                ));
            }
            r += 1;
        }
        proof {
            assert(placed.0.take(self.rails@.len() as int) =~= placed.0);
            assert(incoming@.map_values(|v: usize| v as int) == rails_expecting(placed.0, oidv));
        }

        // 6. Clear every rail this commit satisfied and restamp the
        //    through-line flags of the rest against the previous rail state.
        let ghost restamped = clear_and_restamp(rails_before, placed.0, oidv);
        let mut new_rails: Vec<Rail> = Vec::new();
        let mut t: usize = 0;
        while t < self.rails.len()
            invariant
                t <= self.rails@.len(),
                rails_model(self.rails@) == placed.0,
                rails_model(old_rails@) == rails_before,
                oid@ == oidv,
                restamped == clear_and_restamp(rails_before, placed.0, oidv),
                new_rails@.len() == t,
                rails_model(new_rails@) == restamped.take(t as int),
            decreases self.rails@.len() - t,
        {
            let entry: Rail = if contains(&self.rails[t], &oid) {
                None
            } else {
                match &self.rails[t] {
                    None => None,
                    Some(e) => {
                        let through = t < old_rails.len() && contains(
                            &old_rails[t],
                            &e.expected_parent,
                        );
                        Some(
                            RailEntry {
                                expected_parent: e.expected_parent.clone(),
                                has_through_line: through,
                            },
                        )
                    },
                }
            };
            proof {
                assert(rail_model(entry) == restamped[t as int]);
            }
            new_rails.push(entry);
            proof {
                assert(rails_model(new_rails@) =~= restamped.take(t + 1));
            }
            t += 1;
        }
        self.rails = new_rails;
        proof {
            assert(restamped.take(restamped.len() as int) =~= restamped);
            assert(rails_model(self.rails@) == restamped);
        }

        // 7. Drop trailing free rails.
        let mut new_len: usize = self.rails.len();
        while new_len > 0 && self.rails[new_len - 1].is_none()
            invariant
                new_len <= self.rails@.len(),
                rails_model(self.rails@) == restamped,
                forall|j: int| new_len <= j < restamped.len() ==> restamped[j] is None,
            decreases new_len,
        {
            new_len -= 1;
        }
        self.rails.truncate(new_len);
        proof {
            lemma_drop_trailing_free_take(restamped, new_len as int);
            assert(rails_model(self.rails@) =~= restamped.take(new_len as int));
            assert(rails_model(self.rails@) == m.rails);
        }

        // 8. Emit the row, with a snapshot of the rail state after this row.
        let has_parent_line = if my_rail < self.rails.len() {
            self.rails[my_rail].is_some()
        } else {
            false
        };
        let rails_snapshot = duplicate_rails(&self.rails);
        LayoutListEntry {
            rail: my_rail,
            has_parent_line,
            has_child_line: has_child,
            outgoing,
            incoming,
            rails: rails_snapshot,
            commit,
        }
    }
}

/// If everything from index `k` on is free and rail `k - 1` (if any) is
/// occupied, then dropping trailing free rails is exactly keeping the first
/// `k` rails.
proof fn lemma_drop_trailing_free_take(rails: Seq<Option<RailEntryModel>>, k: int)
    requires
        0 <= k <= rails.len(),
        forall|j: int| k <= j < rails.len() ==> rails[j] is None,
        k == 0 || rails[k - 1] is Some,
    ensures
        drop_trailing_free(rails) == rails.take(k),
    decreases rails.len(),
{
    if rails.len() == k {
        assert(rails.take(k) =~= rails);
    } else {
        assert(rails.last() is None);
        lemma_drop_trailing_free_take(rails.drop_last(), k);
        assert(rails.drop_last().take(k) =~= rails.take(k));
    }
}

} // verus!
