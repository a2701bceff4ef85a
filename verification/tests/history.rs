use corylus::history::{
    build_adjecency_map, has_indirect_path, replace_in_history, transitive_reduction,
};
use corylus::model::git::{Commit, FullCommitData, GitPerson, ParentReference, TimeWithOffset};

fn person() -> GitPerson {
    GitPerson {
        name: "Test".to_owned(),
        email: "test@example.com".to_owned(),
        timestamp: TimeWithOffset { utc_seconds: 1, offset_seconds: 0 },
    }
}

fn parent_ref(oid: &str) -> ParentReference {
    ParentReference { oid: oid.to_owned(), short_oid: oid[0..1].to_owned() }
}

fn commit(oid: &str, parents: Vec<&str>) -> Commit {
    Commit::Commit(FullCommitData {
        oid: oid.to_owned(),
        short_oid: oid[0..1].to_owned(),
        message: oid.to_owned(),
        parents: parents.iter().map(|p| parent_ref(p)).collect(),
        author: person(),
        committer: person(),
    })
}

fn parent_oids(c: &Commit) -> Vec<String> {
    match c {
        Commit::Commit(data) => data.parents.iter().map(|p| p.oid.clone()).collect(),
        Commit::Stash(_) => vec![],
    }
}

#[test]
fn replacing_rewires_across_an_elided_commit() {
    // d listed the elided commit "elid"; its parents take elid's place
    let d = commit("dddd", vec!["yyyy", "elid"]);
    let unrelated = commit("uuuu", vec!["yyyy"]);
    let replacement = vec![parent_ref("aaaa"), parent_ref("bbbb")];
    let rewritten = replace_in_history(&"elid".to_owned(), &replacement, vec![d, unrelated]);
    assert_eq!(parent_oids(&rewritten[0]), vec!["yyyy", "aaaa", "bbbb"]);
    // a commit that never referenced the elided one is untouched
    assert_eq!(parent_oids(&rewritten[1]), vec!["yyyy"]);
}

#[test]
fn replacing_with_nothing_drops_the_reference() {
    let d = commit("dddd", vec!["elid"]);
    let rewritten = replace_in_history(&"elid".to_owned(), &vec![], vec![d]);
    assert_eq!(parent_oids(&rewritten[0]), Vec::<String>::new());
}

#[test]
fn adjacency_answers_reachability() {
    let d = commit("dddd", vec!["bbbb", "aaaa"]);
    let b = commit("bbbb", vec!["aaaa"]);
    let a = commit("aaaa", vec![]);
    let commits = vec![d, b, a];
    let graph = build_adjecency_map(&commits);
    let depth = commits.len() as u64;
    // the path d -> b -> a is indirect
    assert!(has_indirect_path(&graph, &"dddd".to_owned(), &"aaaa".to_owned(), true, depth));
    // the only path d -> b is the direct edge
    assert!(!has_indirect_path(&graph, &"dddd".to_owned(), &"bbbb".to_owned(), true, depth));
    // from b there is no path back up
    assert!(!has_indirect_path(&graph, &"bbbb".to_owned(), &"dddd".to_owned(), true, depth));
}

#[test]
fn reduction_drops_the_shortcut_edge_of_a_diamond() {
    // the filtered diamond: d's second parent was rewritten to a, which is
    // already reachable through b — the direct edge d -> a is redundant
    let d = commit("dddd", vec!["bbbb", "aaaa"]);
    let b = commit("bbbb", vec!["aaaa"]);
    let a = commit("aaaa", vec![]);
    let reduced = transitive_reduction(vec![d, b, a]);
    assert_eq!(reduced.len(), 3);
    assert_eq!(parent_oids(&reduced[0]), vec!["bbbb"]);
    assert_eq!(parent_oids(&reduced[1]), vec!["aaaa"]);
    assert_eq!(parent_oids(&reduced[2]), Vec::<String>::new());
}

#[test]
fn reduction_keeps_real_merges() {
    let m = commit("mmmm", vec!["aaaa", "bbbb"]);
    let a = commit("aaaa", vec![]);
    let b = commit("bbbb", vec![]);
    let reduced = transitive_reduction(vec![m, a, b]);
    assert_eq!(parent_oids(&reduced[0]), vec!["aaaa", "bbbb"]);
}

#[test]
fn elision_then_reduction_restores_a_clean_diamond() {
    // the full history d -> {b, c}, b -> a, c -> a, with c elided by the
    // path filter: c's reference is replaced by its parent a, and the
    // reduction then removes the redundant edge d -> a
    let d = commit("dddd", vec!["bbbb", "cccc"]);
    let b = commit("bbbb", vec!["aaaa"]);
    let a = commit("aaaa", vec![]);
    let elided_parents = vec![parent_ref("aaaa")];
    let rewritten = replace_in_history(&"cccc".to_owned(), &elided_parents, vec![d, b, a]);
    assert_eq!(parent_oids(&rewritten[0]), vec!["bbbb", "aaaa"]);
    let reduced = transitive_reduction(rewritten);
    assert_eq!(parent_oids(&reduced[0]), vec!["bbbb"]);
}

#[test]
fn full_history_is_kept_without_a_path_filter() {
    let b = commit("bbbb", vec!["aaaa"]);
    let a = commit("aaaa", vec![]);
    let walked = vec![(b.clone(), true), (a.clone(), false)];
    // the flags are ignored when no path filter is active
    let history = corylus::history::load_history(walked, false);
    assert_eq!(history, vec![b, a]);
}

#[test]
fn filtered_history_elides_and_reduces() {
    // walk order: d (changes), b (changes), c (no changes), a (changes)
    let d = commit("dddd", vec!["bbbb", "cccc"]);
    let b = commit("bbbb", vec!["aaaa"]);
    let c = commit("cccc", vec!["aaaa"]);
    let a = commit("aaaa", vec![]);
    let walked = vec![(d, true), (b, true), (c, false), (a, true)];
    let history = corylus::history::load_history(walked, true);
    assert_eq!(history.len(), 3);
    // c was elided: d inherited a, and the redundant edge d -> a was dropped
    assert_eq!(parent_oids(&history[0]), vec!["bbbb"]);
    assert_eq!(parent_oids(&history[1]), vec!["aaaa"]);
    assert_eq!(parent_oids(&history[2]), Vec::<String>::new());
}
