use vstd::prelude::*;

use crate::model::git::{commit_equivalent, Commit};

verus! {

/// A rail entry representing a single rail running through one layout row.
#[derive(Clone, Debug, PartialEq, Eq)]
pub struct RailEntry {
    /// Id of the parent expected next on this rail.
    pub expected_parent: String,
    /// Whether this rail runs through unchanged, i.e. the same parent was
    /// already expected on this rail one row above.
    pub has_through_line: bool,
}

/// A rail is either free or occupied by the expectation of a parent commit.
pub type Rail = Option<RailEntry>;

/// The mathematical value of one rail entry: the expected parent id and the
/// through-line flag.
#[verifier::ext_equal]
pub ghost struct RailEntryModel {
    pub expected_parent: Seq<char>,
    pub has_through_line: bool,
}

/// The mathematical value of a rail.
pub open spec fn rail_model(rail: Option<RailEntry>) -> Option<RailEntryModel> {
    match rail {
        Some(entry) => Some(
            RailEntryModel {
                expected_parent: entry.expected_parent@,
                has_through_line: entry.has_through_line,
            },
        ),
        None => None,
    }
}

/// The mathematical value of a whole rail state, leftmost rail first.
pub open spec fn rails_model(rails: Seq<Option<RailEntry>>) -> Seq<Option<RailEntryModel>> {
    rails.map_values(|rail: Option<RailEntry>| rail_model(rail))
}

/// An exact copy of a rail state.
pub fn duplicate_rails(rails: &Vec<Rail>) -> (copy: Vec<Rail>)
    ensures
        copy@ == rails@,
{
    let mut copy: Vec<Rail> = Vec::new();
    let mut i: usize = 0;
    while i < rails.len()
        invariant
            i <= rails@.len(),
            copy@ == rails@.subrange(0, i as int),
        decreases rails@.len() - i,
    {
        let entry: Rail = match &rails[i] {
            Some(entry) => Some(
                RailEntry {
                    expected_parent: entry.expected_parent.clone(),
                    has_through_line: entry.has_through_line,
                },
            ),
            None => None,
        };
        proof {
            assert(entry == rails@[i as int]);
        }
        copy.push(entry);
        proof {
            assert(copy@ =~= rails@.subrange(0, i + 1));
        }
        i += 1;
    }
    proof {
        assert(copy@ =~= rails@);
    }
    copy
}

/// An exact copy of a list of rail indices.
pub fn duplicate_indices(indices: &Vec<usize>) -> (copy: Vec<usize>)
    ensures
        copy@ == indices@,
{
    let mut copy: Vec<usize> = Vec::new();
    let mut i: usize = 0;
    while i < indices.len()
        invariant
            i <= indices@.len(),
            copy@ == indices@.subrange(0, i as int),
        decreases indices@.len() - i,
    {
        copy.push(indices[i]);
        proof {
            assert(copy@ =~= indices@.subrange(0, i + 1));
        }
        i += 1;
    }
    proof {
        assert(copy@ =~= indices@);
    }
    copy
}

/// A layout list entry representing one specific row in the graph.
#[derive(Clone, Debug, PartialEq, Eq)]
pub struct LayoutListEntry {
    /// The index of the rail the node of this entry is on.
    pub rail: usize,
    /// The entry has a parent line, i.e. a downward line.
    pub has_parent_line: bool,
    /// The entry has a child line, i.e. an upward line.
    pub has_child_line: bool,
    /// Rails this row's non-primary parents fan out to: merge edges.
    pub outgoing: Vec<usize>,
    /// Rails whose expected parent is this row's commit: branch lines
    /// converging into it.
    pub incoming: Vec<usize>,
    /// The rail state after processing this row.
    pub rails: Vec<Rail>,
    /// The commit displayed on this row of the graph.
    pub commit: Commit,
}

/// Two layout rows hold the same data. (Equality up to the container
/// values: their vectors hold equal elements in equal order.)
pub open spec fn entry_equivalent(a: LayoutListEntry, b: LayoutListEntry) -> bool {
    &&& a.rail == b.rail
    &&& a.has_parent_line == b.has_parent_line
    &&& a.has_child_line == b.has_child_line
    &&& a.outgoing@ == b.outgoing@
    &&& a.incoming@ == b.incoming@
    &&& a.rails@ == b.rails@
    &&& commit_equivalent(a.commit, b.commit)
}

impl LayoutListEntry {
    /// An exact copy.
    pub fn duplicate(&self) -> (copy: LayoutListEntry)
        ensures
            entry_equivalent(copy, *self),
    {
        LayoutListEntry {
            rail: self.rail,
            has_parent_line: self.has_parent_line,
            has_child_line: self.has_child_line,
            outgoing: duplicate_indices(&self.outgoing),
            incoming: duplicate_indices(&self.incoming),
            rails: duplicate_rails(&self.rails),
            commit: self.commit.duplicate(),
        }
    }
}

/// A graph state: the rows computed so far and the trailing rail state.
#[derive(Clone, Debug, PartialEq, Eq)]
pub struct GraphLayoutData {
    /// The rows of the graph list.
    pub lines: Vec<LayoutListEntry>,
    /// The rails still in use after the last row.
    pub rails: Vec<Rail>,
}

/// Information about the area of a change in the history graph.
#[derive(Clone, Debug, PartialEq, Eq)]
pub struct GraphChangeData {
    /// The total number of entries in the graph (estimated while rows are
    /// still outstanding).
    pub total: usize,
    /// The first changed entry in the graph.
    pub change_start_idx: usize,
    /// The first unchanged entry in the graph.
    pub change_end_idx: usize,
}

} // verus!
