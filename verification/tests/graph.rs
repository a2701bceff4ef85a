use corylus::graph::{
    find_commits, get_graph_entries, get_history_size, get_index, get_missing_oids,
    load_more_graph_entries, match_commit, str_contains, BATCH_SLACK, SIZE_ESTIMATE_SLACK,
};
use corylus::model::git::{Commit, FullCommitData, GitPerson, ParentReference, TimeWithOffset};
use corylus::model::graph::GraphLayoutData;

fn person(name: &str, email: &str) -> GitPerson {
    GitPerson {
        name: name.to_owned(),
        email: email.to_owned(),
        timestamp: TimeWithOffset { utc_seconds: 1, offset_seconds: 0 },
    }
}

fn commit(oid: &str, message: &str, parents: Vec<&str>) -> Commit {
    Commit::Commit(FullCommitData {
        oid: oid.to_owned(),
        short_oid: oid[0..1].to_owned(),
        message: message.to_owned(),
        parents: parents
            .iter()
            .map(|p| ParentReference { oid: (*p).to_owned(), short_oid: p[0..1].to_owned() })
            .collect(),
        author: person("Test", "test@example.com"),
        committer: person("Test", "test@example.com"),
    })
}

fn empty_graph() -> GraphLayoutData {
    GraphLayoutData { lines: vec![], rails: vec![] }
}

#[test]
fn substring_search_works() {
    assert!(str_contains("hello world", "lo wo"));
    assert!(str_contains("hello", ""));
    assert!(!str_contains("hello", "world"));
    assert!(!str_contains("ab", "abc"));
}

#[test]
fn match_commit_lowercases_the_fields() {
    let c = commit("AbCdEf", "Fix the BUG", vec![]);
    let data = match &c {
        Commit::Commit(data) => data.clone(),
        Commit::Stash(_) => unreachable!(),
    };
    // the fields are folded to lowercase before matching
    assert!(match_commit(&data, "abcdef"));
    assert!(match_commit(&data, "bug"));
    assert!(match_commit(&data, "test@example.com"));
    // the search term itself is taken as given
    assert!(!match_commit(&data, "BUG"));
    assert!(!match_commit(&data, "missing"));
}

#[test]
fn extension_appends_rows_and_reports_the_change() {
    let mut graph = empty_graph();
    let a = commit("1111", "child", vec!["2222"]);
    let b = commit("2222", "root", vec![]);
    let change = load_more_graph_entries(&mut graph, vec![a, b]);
    assert_eq!(graph.lines.len(), 2);
    assert_eq!(change.change_start_idx, 0);
    assert_eq!(change.change_end_idx, 2);
    // while rows were added, the total is only an estimate
    assert_eq!(change.total, 2 + BATCH_SLACK);
    // an extension that adds nothing finalizes the total
    let done = load_more_graph_entries(&mut graph, vec![]);
    assert_eq!(done.total, 2);
    assert_eq!(graph.lines.len(), 2);
}

#[test]
fn paging_is_idempotent() {
    let mut graph = empty_graph();
    let c1 = commit("aaaa", "one", vec!["bbbb"]);
    let c2 = commit("bbbb", "two", vec!["cccc"]);
    let c3 = commit("cccc", "three", vec!["dddd"]);
    let c4 = commit("dddd", "four", vec![]);
    load_more_graph_entries(&mut graph, vec![c1, c2, c3, c4]);

    let first = get_graph_entries(&graph, 0, 2);
    let second = get_graph_entries(&graph, 2, 4);
    let all = get_graph_entries(&graph, 0, 4);
    let mut joined = first.clone();
    joined.extend(second.clone());
    assert_eq!(joined, all);

    // a range beyond the end is clamped, not an error
    let clamped = get_graph_entries(&graph, 2, 100);
    assert_eq!(clamped, second);
    assert_eq!(get_graph_entries(&graph, 50, 60), vec![]);
}

#[test]
fn extension_resumes_from_the_frontier() {
    let mut graph = empty_graph();
    let a = commit("1111", "child", vec!["2222"]);
    load_more_graph_entries(&mut graph, vec![a]);
    // the trailing row still expects the root
    assert_eq!(get_missing_oids(&graph), vec!["2222".to_owned()]);
    let b = commit("2222", "root", vec![]);
    load_more_graph_entries(&mut graph, vec![b]);
    assert_eq!(get_missing_oids(&graph), Vec::<String>::new());

    // the two-step extension equals a single run over both commits
    let mut whole = empty_graph();
    let a = commit("1111", "child", vec!["2222"]);
    let b = commit("2222", "root", vec![]);
    load_more_graph_entries(&mut whole, vec![a, b]);
    assert_eq!(graph.lines, whole.lines);
    assert_eq!(graph.rails, whole.rails);
}

#[test]
fn index_lookup_finds_the_first_row() {
    let mut graph = empty_graph();
    let a = commit("1111", "child", vec!["2222"]);
    let b = commit("2222", "root", vec![]);
    load_more_graph_entries(&mut graph, vec![a, b]);
    assert_eq!(get_index(&graph, &"1111".to_owned()), Some(0));
    assert_eq!(get_index(&graph, &"2222".to_owned()), Some(1));
    assert_eq!(get_index(&graph, &"3333".to_owned()), None);
}

#[test]
fn search_returns_matching_row_indices() {
    let mut graph = empty_graph();
    let a = commit("1111", "add feature", vec!["2222"]);
    let b = commit("2222", "initial IMPORT", vec![]);
    load_more_graph_entries(&mut graph, vec![a, b]);
    assert_eq!(find_commits(&graph, "import"), vec![1]);
    assert_eq!(find_commits(&graph, "feature"), vec![0]);
    assert_eq!(find_commits(&graph, "@example"), vec![0, 1]);
    assert_eq!(find_commits(&graph, "nothing"), Vec::<usize>::new());
}

#[test]
fn history_size_is_estimated_while_rows_continue() {
    let empty = empty_graph();
    assert_eq!(get_history_size(&empty), SIZE_ESTIMATE_SLACK);

    let mut open_ended = empty_graph();
    let a = commit("1111", "child", vec!["2222"]);
    load_more_graph_entries(&mut open_ended, vec![a]);
    assert_eq!(get_history_size(&open_ended), 1 + SIZE_ESTIMATE_SLACK);

    let b = commit("2222", "root", vec![]);
    load_more_graph_entries(&mut open_ended, vec![b]);
    assert_eq!(get_history_size(&open_ended), 2);
}
