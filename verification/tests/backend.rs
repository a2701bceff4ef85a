use corylus::error::{BackendError, LoggingDefaultUnwrapper};
use corylus::log::Level;
use corylus::model::git::Commit;
use corylus::model::git::FullCommitData;
use corylus::model::git::GitPerson;
use corylus::model::git::TimeWithOffset;
use corylus::window_events::WindowEvents;

#[test]
fn backend_error_carries_its_message() {
    let error = BackendError::new("it broke".to_owned());
    assert_eq!(error.message, "it broke");
}

#[test]
fn ok_or_log_downgrades_to_an_option() {
    let good: Result<u32, BackendError> = Ok(7);
    let bad: Result<u32, BackendError> = Err(BackendError::new("nope".to_owned()));
    assert_eq!(good.ok_or_log("context"), Some(7));
    assert_eq!(bad.ok_or_log("context"), None);
}

#[test]
fn levels_have_their_display_names() {
    assert_eq!(Level::Trace.name(), "TRACE");
    assert_eq!(Level::Debug.name(), "DEBUG");
    assert_eq!(Level::Info.name(), "INFO");
    assert_eq!(Level::Warn.name(), "WARN");
    assert_eq!(Level::Error.name(), "ERROR");
}

#[test]
fn window_events_have_their_names() {
    assert_eq!(WindowEvents::HistoryChanged.name(), "HistoryChanged");
    assert_eq!(WindowEvents::SettingsChanged.name(), "SettingsChanged");
    assert_eq!(WindowEvents::Progress.name(), "Progress");
}

#[test]
fn graph_node_view_of_a_commit() {
    let commit = Commit::Commit(FullCommitData {
        oid: "abcd".to_owned(),
        short_oid: "a".to_owned(),
        message: "m".to_owned(),
        parents: vec![],
        author: GitPerson {
            name: "n".to_owned(),
            email: "e".to_owned(),
            timestamp: TimeWithOffset { utc_seconds: 0, offset_seconds: 0 },
        },
        committer: GitPerson {
            name: "n".to_owned(),
            email: "e".to_owned(),
            timestamp: TimeWithOffset { utc_seconds: 0, offset_seconds: 0 },
        },
    });
    assert_eq!(commit.as_graph_node().oid, "abcd");
    assert_eq!(commit.id(), "abcd");
    assert!(commit.parent_refs().is_empty());
}
