use vstd::prelude::*;

verus! {

/// The events the backend raises towards the UI window.
#[derive(Clone, Copy, Debug, PartialEq, Eq)]
pub enum WindowEvents {
    SettingsChanged,
    BranchesChanged,
    StatusChanged,
    HistoryChanged,
    DiffChanged,
    GraphChanged,
    StashesChanged,
    CommitStatsChanged,
    TagsChanged,
    Progress,
    RepoStateChanged,
    MergeMessageChanged,
}

/// The name an event is published under.
pub open spec fn event_name(event: WindowEvents) -> Seq<char> {
    match event {
        WindowEvents::SettingsChanged => "SettingsChanged"@,
        WindowEvents::BranchesChanged => "BranchesChanged"@,
        WindowEvents::StatusChanged => "StatusChanged"@,
        WindowEvents::HistoryChanged => "HistoryChanged"@,
        WindowEvents::DiffChanged => "DiffChanged"@,
        WindowEvents::GraphChanged => "GraphChanged"@,
        WindowEvents::StashesChanged => "StashesChanged"@,
        WindowEvents::CommitStatsChanged => "CommitStatsChanged"@,
        WindowEvents::TagsChanged => "TagsChanged"@,
        WindowEvents::Progress => "Progress"@,
        WindowEvents::RepoStateChanged => "RepoStateChanged"@,
        WindowEvents::MergeMessageChanged => "MergeMessageChanged"@,
    }
}

impl WindowEvents {
    /// The name the event is published under.
    pub fn name(&self) -> (name: &'static str)
        ensures
            name@ == event_name(*self),
    {
        match self {
            WindowEvents::SettingsChanged => "SettingsChanged",
            WindowEvents::BranchesChanged => "BranchesChanged",
            WindowEvents::StatusChanged => "StatusChanged",
            WindowEvents::HistoryChanged => "HistoryChanged",
            WindowEvents::DiffChanged => "DiffChanged",
            WindowEvents::GraphChanged => "GraphChanged",
            WindowEvents::StashesChanged => "StashesChanged",
            WindowEvents::CommitStatsChanged => "CommitStatsChanged",
            WindowEvents::TagsChanged => "TagsChanged",
            WindowEvents::Progress => "Progress",
            WindowEvents::RepoStateChanged => "RepoStateChanged",
            WindowEvents::MergeMessageChanged => "MergeMessageChanged",
        }
    }
}

} // verus!
