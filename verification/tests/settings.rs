use corylus::settings::{
    current_time_millis, fixup_titles, load_settings, title_from_path, update_history,
    HistoryEntry, Settings, MAX_HISTORY_ENTRIES,
};

fn entry(path: &str, date: u64, title: &str) -> HistoryEntry {
    HistoryEntry { path: path.to_owned(), date, title: title.to_owned() }
}

#[test]
fn titles_come_from_the_last_path_component() {
    assert_eq!(title_from_path("/home/user/repo"), "repo");
    assert_eq!(title_from_path("repo"), "repo");
    assert_eq!(title_from_path("a/b/repo///"), "repo");
    assert_eq!(title_from_path(""), "<invalid path>");
    assert_eq!(title_from_path("/"), "<invalid path>");
    assert_eq!(title_from_path("a/.."), "<invalid path>");
    assert_eq!(title_from_path("."), "<invalid path>");
}

#[test]
fn fixup_fills_only_empty_titles() {
    let mut settings = Settings {
        open_tabs: vec![],
        repository_history: vec![
            entry("/home/user/first", 1, ""),
            entry("/home/user/second", 2, "kept"),
        ],
        theme: "dark".to_owned(),
    };
    fixup_titles(&mut settings);
    assert_eq!(settings.repository_history[0].title, "first");
    assert_eq!(settings.repository_history[1].title, "kept");
}

#[test]
fn loading_without_a_file_gives_the_defaults() {
    let settings = load_settings(None);
    assert_eq!(settings.theme, "dark");
    assert!(settings.open_tabs.is_empty());
    assert!(settings.repository_history.is_empty());
}

#[test]
fn loading_fixes_up_the_stored_settings() {
    let stored = Settings {
        open_tabs: vec!["/home/user/repo".to_owned()],
        repository_history: vec![entry("/home/user/repo", 7, "")],
        theme: "light".to_owned(),
    };
    let settings = load_settings(Some(stored));
    assert_eq!(settings.theme, "light");
    assert_eq!(settings.open_tabs, vec!["/home/user/repo".to_owned()]);
    assert_eq!(settings.repository_history[0].title, "repo");
}

#[test]
fn updating_refreshes_a_known_repository() {
    let mut settings = Settings {
        open_tabs: vec![],
        repository_history: vec![entry("/home/user/repo", 1, "repo")],
        theme: "dark".to_owned(),
    };
    update_history(&mut settings, &"/home/user/repo".to_owned(), 42);
    assert_eq!(settings.repository_history.len(), 1);
    assert_eq!(settings.repository_history[0].date, 42);
    assert_eq!(settings.repository_history[0].title, "repo");
}

#[test]
fn updating_adds_an_unknown_repository() {
    let mut settings = Settings {
        open_tabs: vec![],
        repository_history: vec![entry("/home/user/old", 1, "old")],
        theme: "dark".to_owned(),
    };
    update_history(&mut settings, &"/home/user/fresh".to_owned(), 9);
    assert_eq!(settings.repository_history.len(), 2);
    assert_eq!(settings.repository_history[1].path, "/home/user/fresh");
    assert_eq!(settings.repository_history[1].date, 9);
    assert_eq!(settings.repository_history[1].title, "fresh");
}

#[test]
fn updating_caps_the_history_by_date() {
    let mut settings = Settings {
        open_tabs: vec![],
        repository_history: (0..MAX_HISTORY_ENTRIES as u64)
            .map(|i| entry(&format!("/repos/r{}", i), 1000 + i, "r"))
            .collect(),
        theme: "dark".to_owned(),
    };
    update_history(&mut settings, &"/repos/fresh".to_owned(), 5);
    assert_eq!(settings.repository_history.len(), MAX_HISTORY_ENTRIES);
    // sorted by date, oldest first; the largest date fell off the end
    assert_eq!(settings.repository_history[0].path, "/repos/fresh");
    assert_eq!(settings.repository_history[0].date, 5);
    assert_eq!(
        settings.repository_history[MAX_HISTORY_ENTRIES - 1].date,
        1000 + MAX_HISTORY_ENTRIES as u64 - 2
    );
}

#[test]
fn the_clock_moves_forward() {
    let now = current_time_millis().unwrap();
    // well after 2020-01-01 in milliseconds
    assert!(now > 1_577_836_800_000);
}
