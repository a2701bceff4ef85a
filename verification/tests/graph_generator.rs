use corylus::graph_generator::GraphGenerator;
use corylus::model::git::{Commit, FullCommitData, GitPerson, ParentReference, StashData, TimeWithOffset};
use corylus::model::graph::{LayoutListEntry, RailEntry};

fn author() -> GitPerson {
    GitPerson {
        name: String::from("Test"),
        email: String::from("test@example.com"),
        timestamp: TimeWithOffset { utc_seconds: 1, offset_seconds: 0 },
    }
}

fn make_commit(oid: &str, parents: Vec<&Commit>) -> Commit {
    Commit::Commit(FullCommitData {
        oid: oid.to_owned(),
        short_oid: oid[0..1].to_owned(),
        message: oid.to_owned(),
        parents: parents
            .iter()
            .map(|&p| ParentReference {
                oid: p.as_graph_node().oid.to_owned(),
                short_oid: p.as_graph_node().oid[0..1].to_owned(),
            })
            .collect(),
        author: author(),
        committer: author(),
    })
}

fn make_rail_entry(oid: &str, has_through_line: bool) -> Option<RailEntry> {
    Some(RailEntry { expected_parent: oid.to_owned(), has_through_line })
}

fn layout(input: Vec<Commit>) -> Vec<LayoutListEntry> {
    let mut generator = GraphGenerator::new(None);
    input.into_iter().map(|c| generator.next(c)).collect()
}

#[test]
fn simple_linear_history() {
    let parent = make_commit("2222", vec![]);
    let child = make_commit("1111", vec![&parent]);
    let input: Vec<Commit> = vec![child.clone(), parent.clone()];

    assert_eq!(
        vec![
            LayoutListEntry {
                rail: 0,
                has_parent_line: true,
                has_child_line: false,
                outgoing: vec![],
                incoming: vec![],
                rails: vec![make_rail_entry("2222", false)],
                commit: child
            },
            LayoutListEntry {
                rail: 0,
                has_parent_line: false,
                has_child_line: true,
                outgoing: vec![],
                incoming: vec![],
                rails: vec![],
                commit: parent
            }
        ],
        layout(input)
    )
}

#[test]
fn branch() {
    let parent = make_commit("2222", vec![]);
    let child1 = make_commit("1111", vec![&parent]);
    let child2 = make_commit("3333", vec![&parent]);
    let input: Vec<Commit> = vec![child2.clone(), child1.clone(), parent.clone()];

    assert_eq!(
        vec![
            LayoutListEntry {
                rail: 0,
                has_parent_line: true,
                has_child_line: false,
                outgoing: vec![],
                incoming: vec![],
                rails: vec![make_rail_entry("2222", false)],
                commit: child2
            },
            LayoutListEntry {
                rail: 1,
                has_parent_line: false,
                has_child_line: false,
                outgoing: vec![0],
                incoming: vec![],
                rails: vec![make_rail_entry("2222", true)],
                commit: child1
            },
            LayoutListEntry {
                rail: 0,
                has_parent_line: false,
                has_child_line: true,
                outgoing: vec![],
                incoming: vec![],
                rails: vec![],
                commit: parent
            }
        ],
        layout(input)
    )
}

#[test]
fn merge() {
    let parent1 = make_commit("2222", vec![]);
    let parent2 = make_commit("1111", vec![]);
    let child = make_commit("3333", vec![&parent1, &parent2]);
    let input: Vec<Commit> = vec![child.clone(), parent1.clone(), parent2.clone()];

    assert_eq!(
        vec![
            LayoutListEntry {
                rail: 0,
                has_parent_line: true,
                has_child_line: false,
                outgoing: vec![1],
                incoming: vec![],
                rails: vec![make_rail_entry("2222", false), make_rail_entry("1111", false)],
                commit: child
            },
            LayoutListEntry {
                rail: 0,
                has_parent_line: false,
                has_child_line: true,
                outgoing: vec![],
                incoming: vec![],
                rails: vec![None, make_rail_entry("1111", true)],
                commit: parent1
            },
            LayoutListEntry {
                rail: 1,
                has_parent_line: false,
                has_child_line: true,
                outgoing: vec![],
                incoming: vec![],
                rails: vec![],
                commit: parent2
            }
        ],
        layout(input)
    )
}

#[test]
fn branch_merge() {
    let parent = make_commit("1111", vec![]);
    let child_left = make_commit("2222", vec![&parent]);
    let child_right = make_commit("3333", vec![&parent]);
    let grandchild = make_commit("4444", vec![&child_left, &child_right]);

    let input: Vec<Commit> = vec![
        grandchild.clone(),
        child_left.clone(),
        child_right.clone(),
        parent.clone(),
    ];

    assert_eq!(
        vec![
            LayoutListEntry {
                rail: 0,
                has_parent_line: true,
                has_child_line: false,
                outgoing: vec![1],
                incoming: vec![],
                rails: vec![make_rail_entry("2222", false), make_rail_entry("3333", false)],
                commit: grandchild
            },
            LayoutListEntry {
                rail: 0,
                has_parent_line: true,
                has_child_line: true,
                outgoing: vec![],
                incoming: vec![],
                rails: vec![make_rail_entry("1111", false), make_rail_entry("3333", true)],
                commit: child_left
            },
            LayoutListEntry {
                rail: 1,
                has_parent_line: false,
                has_child_line: true,
                outgoing: vec![0],
                incoming: vec![],
                rails: vec![make_rail_entry("1111", true)],
                commit: child_right
            },
            LayoutListEntry {
                rail: 0,
                has_parent_line: false,
                has_child_line: true,
                outgoing: vec![],
                incoming: vec![],
                rails: vec![],
                commit: parent
            }
        ],
        layout(input)
    )
}

#[test]
fn branch_merge_branch_merge() {
    let greatgrandparent = make_commit("0000", vec![]);
    let grandparent = make_commit("1111", vec![&greatgrandparent]);
    let parent = make_commit("2222", vec![&greatgrandparent, &grandparent]);
    let child = make_commit("3333", vec![&parent]);
    let grandchild = make_commit("4444", vec![&parent, &child]);

    let input: Vec<Commit> = vec![
        grandchild.clone(),
        child.clone(),
        parent.clone(),
        grandparent.clone(),
        greatgrandparent.clone(),
    ];
    assert_eq!(
        vec![
            LayoutListEntry {
                rail: 0,
                has_parent_line: true,
                has_child_line: false,
                outgoing: vec![1],
                incoming: vec![],
                rails: vec![make_rail_entry("2222", false), make_rail_entry("3333", false)],
                commit: grandchild
            },
            LayoutListEntry {
                rail: 1,
                has_parent_line: false,
                has_child_line: true,
                outgoing: vec![0],
                incoming: vec![],
                rails: vec![make_rail_entry("2222", true)],
                commit: child
            },
            LayoutListEntry {
                rail: 0,
                has_parent_line: true,
                has_child_line: true,
                outgoing: vec![1],
                incoming: vec![],
                rails: vec![make_rail_entry("0000", false), make_rail_entry("1111", false)],
                commit: parent
            },
            LayoutListEntry {
                rail: 1,
                has_parent_line: false,
                has_child_line: true,
                outgoing: vec![0],
                incoming: vec![],
                rails: vec![make_rail_entry("0000", true)],
                commit: grandparent
            },
            LayoutListEntry {
                rail: 0,
                has_parent_line: false,
                has_child_line: true,
                outgoing: vec![],
                incoming: vec![],
                rails: vec![],
                commit: greatgrandparent
            }
        ],
        layout(input)
    )
}

#[test]
fn incoming_correct() {
    let g = make_commit("g", vec![]);
    let p1 = make_commit("p1", vec![&g]);
    let c1 = make_commit("c1", vec![&p1]);
    let c2 = make_commit("c2", vec![&g]);
    let p2 = make_commit("p2", vec![&g]);

    let history = vec![c1.clone(), c2.clone(), p1.clone(), p2.clone(), g.clone()];

    let rows = layout(history);

    assert_eq!(
        vec![
            LayoutListEntry {
                rail: 0,
                has_parent_line: true,
                has_child_line: false,
                outgoing: vec![],
                incoming: vec![],
                rails: vec![make_rail_entry("p1", false)],
                commit: c1
            },
            LayoutListEntry {
                rail: 1,
                has_parent_line: true,
                has_child_line: false,
                outgoing: vec![],
                incoming: vec![],
                rails: vec![make_rail_entry("p1", true), make_rail_entry("g", false)],
                commit: c2
            },
            LayoutListEntry {
                rail: 0,
                has_parent_line: true,
                has_child_line: true,
                outgoing: vec![],
                incoming: vec![],
                rails: vec![make_rail_entry("g", false), make_rail_entry("g", true)],
                commit: p1
            },
            LayoutListEntry {
                rail: 2,
                has_parent_line: false,
                has_child_line: false,
                outgoing: vec![0],
                incoming: vec![],
                rails: vec![make_rail_entry("g", true), make_rail_entry("g", true)],
                commit: p2
            },
            LayoutListEntry {
                rail: 0,
                has_parent_line: false,
                has_child_line: true,
                outgoing: vec![],
                incoming: vec![1],
                rails: vec![],
                commit: g
            }
        ],
        rows
    );
}

#[test]
pub fn outgoing_correct() {
    let p2 = make_commit("p2", vec![]);
    let p1 = make_commit("p1", vec![]);
    let c3 = make_commit("c3", vec![&p1]);
    let c2 = make_commit("c2", vec![&p1, &p2]);
    let c1 = make_commit("c1", vec![&p2]);

    let history = vec![c1.clone(), c2.clone(), c3.clone(), p1.clone(), p2.clone()];

    let rows = layout(history);

    assert_eq!(
        vec![
            LayoutListEntry {
                rail: 0,
                has_parent_line: true,
                has_child_line: false,
                outgoing: vec![],
                incoming: vec![],
                rails: vec![make_rail_entry("p2", false)],
                commit: c1
            },
            LayoutListEntry {
                rail: 1,
                has_parent_line: true,
                has_child_line: false,
                outgoing: vec![0],
                incoming: vec![],
                rails: vec![make_rail_entry("p2", true), make_rail_entry("p1", false)],
                commit: c2
            },
            LayoutListEntry {
                rail: 2,
                has_parent_line: false,
                has_child_line: false,
                outgoing: vec![1],
                incoming: vec![],
                rails: vec![make_rail_entry("p2", true), make_rail_entry("p1", true),],
                commit: c3
            },
            LayoutListEntry {
                rail: 1,
                has_parent_line: false,
                has_child_line: true,
                outgoing: vec![],
                incoming: vec![],
                rails: vec![make_rail_entry("p2", true)],
                commit: p1
            },
            LayoutListEntry {
                rail: 0,
                has_parent_line: false,
                has_child_line: true,
                outgoing: vec![],
                incoming: vec![],
                rails: vec![],
                commit: p2
            }
        ],
        rows
    )
}

#[test]
fn stashes_are_leaves() {
    let stash = Commit::Stash(StashData {
        ref_name: "stash@{0}".to_owned(),
        oid: "ssss".to_owned(),
        short_oid: "s".to_owned(),
        message: "WIP".to_owned(),
        parents: vec![],
        author: author(),
    });
    let rows = layout(vec![stash.clone()]);
    assert_eq!(
        vec![LayoutListEntry {
            rail: 0,
            has_parent_line: false,
            has_child_line: false,
            outgoing: vec![],
            incoming: vec![],
            rails: vec![],
            commit: stash
        }],
        rows
    );
}
