use vstd::prelude::*;
use vstd::pervasive::VecAdditionalExecFns;
use vstd::string::StrSliceExecFns;

use crate::error::BackendError;

verus! {

/// How many repositories the history keeps at most.
pub const MAX_HISTORY_ENTRIES: usize = 100;

/// A repository that was opened in the past.
#[derive(Clone, Debug, PartialEq, Eq)]
pub struct HistoryEntry {
    /// The path of the repository.
    pub path: String,
    /// The last time this repository was open, in milliseconds since the
    /// epoch.
    pub date: u64,
    /// The title the tab is shown under.
    pub title: String,
}

impl HistoryEntry {
    /// An exact copy.
    pub fn duplicate(&self) -> (copy: HistoryEntry)
        ensures
            copy == *self,
    {
        HistoryEntry { path: self.path.clone(), date: self.date, title: self.title.clone() }
    }
}

/// The application settings.
#[derive(Clone, Debug, PartialEq, Eq)]
pub struct Settings {
    /// The paths of the tabs currently open.
    pub open_tabs: Vec<String>,
    /// Repositories that were opened in the past.
    pub repository_history: Vec<HistoryEntry>,
    /// The name of the theme currently in use by the app.
    pub theme: String,
}

impl Default for Settings {
    /// No tabs, no history, the dark theme.
    fn default() -> (settings: Settings)
        ensures
            settings.open_tabs@.len() == 0,
            settings.repository_history@.len() == 0,
            settings.theme@ == "dark"@,
    {
        Settings {
            open_tabs: Vec::new(),
            repository_history: Vec::new(),
            theme: "dark".to_owned(),
        }
    }
}

// ---------------------------------------------------------------------------
// Titles from paths.
// ---------------------------------------------------------------------------

/// `path` with its trailing separators removed.
pub open spec fn strip_trailing_slashes(path: Seq<char>) -> Seq<char>
    decreases path.len(),
{
    if path.len() > 0 && path.last() == '/' {
        strip_trailing_slashes(path.drop_last())
    } else {
        path
    }
}

/// The suffix of `path` after its last separator (all of it if there is
/// none).
pub open spec fn after_last_slash(path: Seq<char>) -> Seq<char>
    decreases path.len(),
{
    if path.len() == 0 {
        Seq::empty()
    } else if path.last() == '/' {
        Seq::empty()
    } else {
        after_last_slash(path.drop_last()).push(path.last())
    }
}

/// The title a path is displayed under: its final component ('/' separated,
/// ignoring trailing separators), or a placeholder when the path has no
/// usable final component (empty, or ending in `.` or `..`).
pub open spec fn title_of_path(path: Seq<char>) -> Seq<char> {
    let name = after_last_slash(strip_trailing_slashes(path));
    if name.len() == 0 || name == seq!['.'] || name == seq!['.', '.'] {
        "<invalid path>"@
    } else {
        name
    }
}

/// The displayable title of a repository path.
pub fn title_from_path(path: &str) -> (title: String)
    ensures
        title@ == title_of_path(path@),
{
    let n = path.unicode_len();
    proof {
        assert(path@.take(n as int) =~= path@);
    }
    let mut e: usize = n;
    while e > 0 && path.get_char(e - 1) == '/'
        invariant
            e <= n,
            n == path@.len(),
            strip_trailing_slashes(path@) == strip_trailing_slashes(path@.take(e as int)),
        decreases e,
    {
        proof {
            assert(path@.take(e as int).last() == path@[e - 1]);
            assert(path@.take(e as int).drop_last() =~= path@.take(e - 1));
        }
        e -= 1;
    }
    proof {
        if e > 0 {
            assert(path@.take(e as int).last() == path@[e - 1]);
        }
        assert(strip_trailing_slashes(path@) == path@.take(e as int));
    }
    let mut b: usize = e;
    while b > 0 && path.get_char(b - 1) != '/'
        invariant
            b <= e,
            e <= n,
            n == path@.len(),
            after_last_slash(path@.take(e as int)) == after_last_slash(path@.take(b as int)) + path@.subrange(b as int, e as int),
        decreases b,
    {
        proof {
            assert(path@.take(b as int).last() == path@[b - 1]);
            assert(path@.take(b as int).drop_last() =~= path@.take(b - 1));
            assert(after_last_slash(path@.take(b - 1)).push(path@[b - 1]) + path@.subrange(
                b as int,
                e as int,
            ) =~= after_last_slash(path@.take(b - 1)) + path@.subrange(b - 1, e as int));
        }
        b -= 1;
    }
    proof {
        if b > 0 {
            assert(path@.take(b as int).last() == path@[b - 1]);
            assert(after_last_slash(path@.take(b as int)) =~= Seq::<char>::empty());
        } else {
            assert(path@.take(0) =~= Seq::<char>::empty());
        }
        assert(after_last_slash(path@.take(e as int)) =~= path@.subrange(b as int, e as int));
    }
    let len = e - b;
    if len == 0 {
        let fallback = "<invalid path>".to_owned();
        return fallback;
    }
    if len == 1 && path.get_char(b) == '.' {
        proof {
            assert(path@.subrange(b as int, e as int) =~= seq!['.']);
        }
        let fallback = "<invalid path>".to_owned();
        return fallback;
    }
    if len == 2 && path.get_char(b) == '.' && path.get_char(b + 1) == '.' {
        proof {
            assert(path@.subrange(b as int, e as int) =~= seq!['.', '.']);
        }
        let fallback = "<invalid path>".to_owned();
        return fallback;
    }
    proof {
        let name = path@.subrange(b as int, e as int);
        assert(name.len() >= 1);
        if name.len() == 1 {
            assert(name[0] == path@[b as int]);
            assert(seq!['.'][0] == '.');
            assert(name != seq!['.']);
        } else {
            assert(name != seq!['.']);
        }
        if name.len() == 2 {
            assert(name[0] == path@[b as int]);
            assert(name[1] == path@[b + 1]);
            assert(seq!['.', '.'][0] == '.' && seq!['.', '.'][1] == '.');
            assert(name != seq!['.', '.']);
        } else {
            assert(name != seq!['.', '.']);
        }
    }
    path.substring_char(b, e).to_owned()
}

// ---------------------------------------------------------------------------
// Loading settings.
// ---------------------------------------------------------------------------

/// `after` is `before` with its title filled in from its path where it was
/// empty.
pub open spec fn title_fixed(before: HistoryEntry, after: HistoryEntry) -> bool {
    &&& after.path == before.path
    &&& after.date == before.date
    &&& after.title@ == if before.title@.len() == 0 {
        title_of_path(before.path@)
    } else {
        before.title@
    }
}

/// Fill in an empty title of every history entry from its path.
pub fn fixup_titles(settings: &mut Settings)
    ensures
        final(settings).open_tabs == old(settings).open_tabs,
        final(settings).theme == old(settings).theme,
        final(settings).repository_history@.len() == old(settings).repository_history@.len(),
        forall|i: int|
            0 <= i < old(settings).repository_history@.len() ==> #[trigger] title_fixed(
                old(settings).repository_history@[i],
                final(settings).repository_history@[i],
            ),
{
    let mut j: usize = 0;
    while j < settings.repository_history.len()
        invariant
            j <= settings.repository_history@.len(),
            settings.open_tabs == old(settings).open_tabs,
            settings.theme == old(settings).theme,
            settings.repository_history@.len() == old(settings).repository_history@.len(),
            forall|i: int|
                j <= i < settings.repository_history@.len() ==> settings.repository_history@[i]
                    == old(settings).repository_history@[i],
            forall|i: int|
                0 <= i < j ==> #[trigger] title_fixed(
                    old(settings).repository_history@[i],
                    settings.repository_history@[i],
                ),
        decreases settings.repository_history@.len() - j,
    {
        let needs_title = settings.repository_history[j].title.as_str().is_empty();
        if needs_title {
            let path = settings.repository_history[j].path.clone();
            let date = settings.repository_history[j].date;
            let title = title_from_path(path.as_str());
            settings.repository_history.set(j, HistoryEntry { path, date, title });
        }
        j += 1;
    }
}

/// Build the settings in force from what the settings file held, or the
/// defaults when there was no usable file, filling in missing titles.
pub fn load_settings(stored: Option<Settings>) -> (settings: Settings)
    ensures
        match stored {
            Some(loaded) => {
                &&& settings.open_tabs == loaded.open_tabs
                &&& settings.theme == loaded.theme
                &&& settings.repository_history@.len() == loaded.repository_history@.len()
                &&& forall|i: int|
                    0 <= i < loaded.repository_history@.len() ==> #[trigger] title_fixed(
                        loaded.repository_history@[i],
                        settings.repository_history@[i],
                    )
            },
            None => {
                &&& settings.open_tabs@.len() == 0
                &&& settings.repository_history@.len() == 0
                &&& settings.theme@ == "dark"@
            },
        },
{
    let mut settings = match stored {
        Some(loaded) => loaded,
        None => Settings::default(),
    };
    fixup_titles(&mut settings);
    settings
}

// ---------------------------------------------------------------------------
// The repository history.
// ---------------------------------------------------------------------------

/// Relies on std::time::SystemTime::now and duration_since: the
/// milliseconds since the Unix epoch, or nothing when the clock stands
/// before the epoch or the count does not fit.
#[verifier::external_body]
fn epoch_millis() -> Option<u64> {
    std::time::SystemTime::now().duration_since(std::time::UNIX_EPOCH).ok().and_then(
        |elapsed| elapsed.as_millis().try_into().ok(),
    )
}

/// The current time in milliseconds since the Unix epoch. The clock decides
/// the value; only the error's message is fixed.
pub fn current_time_millis() -> (time: Result<u64, BackendError>)
    ensures
        time matches Err(error) ==> error.message@ == "Could not get current time"@,
{
    match epoch_millis() {
        Some(millis) => Ok(millis),
        None => Err(BackendError::new("Could not get current time".to_owned())),
    }
}

/// The index of the first history entry for `path`, if any.
pub open spec fn find_path_index(entries: Seq<HistoryEntry>, path: Seq<char>) -> Option<int>
    decreases entries.len(),
{
    if entries.len() == 0 {
        None
    } else if entries[0].path@ == path {
        Some(0int)
    } else {
        match find_path_index(entries.drop_first(), path) {
            Some(i) => Some(i + 1),
            None => None,
        }
    }
}

/// `find_path_index` returns the smallest index whose entry has the path.
proof fn lemma_find_path_index(entries: Seq<HistoryEntry>, path: Seq<char>)
    ensures
        match find_path_index(entries, path) {
            Some(i) => 0 <= i < entries.len() && entries[i].path@ == path && forall|j: int|
                0 <= j < i ==> entries[j].path@ != path,
            None => forall|j: int| 0 <= j < entries.len() ==> entries[j].path@ != path,
        },
    decreases entries.len(),
{
    if entries.len() > 0 && entries[0].path@ != path {
        let rest = entries.drop_first();
        lemma_find_path_index(rest, path);
        match find_path_index(rest, path) {
            Some(i) => {
                assert(entries[i + 1] == rest[i]);
                assert forall|j: int| 0 <= j < i + 1 implies entries[j].path@ != path by {
                    if j >= 1 {
                        assert(entries[j] == rest[j - 1]);
                    }
                }
            },
            None => {
                assert forall|j: int| 0 <= j < entries.len() implies entries[j].path@ != path by {
                    if j >= 1 {
                        assert(entries[j] == rest[j - 1]);
                    }
                }
            },
        }
    }
}

/// `entry` inserted into `sorted` after every entry whose date is not
/// larger: a stable insertion by date.
pub open spec fn insert_by_date(entry: HistoryEntry, sorted: Seq<HistoryEntry>) -> Seq<
    HistoryEntry,
>
    decreases sorted.len(),
{
    if sorted.len() == 0 {
        seq![entry]
    } else if sorted.last().date <= entry.date {
        sorted.push(entry)
    } else {
        insert_by_date(entry, sorted.drop_last()).push(sorted.last())
    }
}

/// The entries sorted by date, oldest first, entries of equal date keeping
/// their order: a stable insertion sort.
pub open spec fn sorted_by_date(entries: Seq<HistoryEntry>) -> Seq<HistoryEntry>
    decreases entries.len(),
{
    if entries.len() == 0 {
        entries
    } else {
        insert_by_date(entries.last(), sorted_by_date(entries.drop_last()))
    }
}

/// Insertion adds exactly one entry.
proof fn lemma_insert_by_date_len(entry: HistoryEntry, sorted: Seq<HistoryEntry>)
    ensures
        insert_by_date(entry, sorted).len() == sorted.len() + 1,
    decreases sorted.len(),
{
    if sorted.len() > 0 && !(sorted.last().date <= entry.date) {
        lemma_insert_by_date_len(entry, sorted.drop_last());
    }
}

/// Sorting keeps the length.
proof fn lemma_sorted_by_date_len(entries: Seq<HistoryEntry>)
    ensures
        sorted_by_date(entries).len() == entries.len(),
    decreases entries.len(),
{
    if entries.len() > 0 {
        lemma_sorted_by_date_len(entries.drop_last());
        lemma_insert_by_date_len(entries.last(), sorted_by_date(entries.drop_last()));
    }
}

/// Inserting at the position the scan found is the stable insertion.
proof fn lemma_insert_by_date_at(entry: HistoryEntry, sorted: Seq<HistoryEntry>, k: int)
    requires
        0 <= k <= sorted.len(),
        forall|j: int| k <= j < sorted.len() ==> sorted[j].date > entry.date,
        k == 0 || sorted[k - 1].date <= entry.date,
    ensures
        insert_by_date(entry, sorted) == sorted.insert(k, entry),
    decreases sorted.len(),
{
    if sorted.len() == 0 {
        assert(insert_by_date(entry, sorted) =~= sorted.insert(0, entry));
    } else if sorted.last().date <= entry.date {
        assert(k == sorted.len());
        assert(sorted.push(entry) =~= sorted.insert(k, entry));
    } else {
        assert(k < sorted.len());
        lemma_insert_by_date_at(entry, sorted.drop_last(), k);
        assert(insert_by_date(entry, sorted.drop_last()).push(sorted.last()) =~= sorted.insert(
            k,
            entry,
        ));
    }
}

/// Sort history entries by date, oldest first, stably.
fn sort_history_by_date(entries: &Vec<HistoryEntry>) -> (sorted: Vec<HistoryEntry>)
    ensures
        sorted@ == sorted_by_date(entries@),
{
    let mut sorted: Vec<HistoryEntry> = Vec::new();
    let mut i: usize = 0;
    proof {
        assert(entries@.take(0) =~= Seq::<HistoryEntry>::empty());
    }
    while i < entries.len()
        invariant
            i <= entries@.len(),
            sorted@ == sorted_by_date(entries@.take(i as int)),
            sorted@.len() == i,
        decreases entries@.len() - i,
    {
        let entry = entries[i].duplicate();
        let mut k: usize = sorted.len();
        while k > 0 && sorted[k - 1].date > entry.date
            invariant
                k <= sorted@.len(),
                forall|j: int| k <= j < sorted@.len() ==> sorted@[j].date > entry.date,
            decreases k,
        {
            k -= 1;
        }
        proof {
            lemma_insert_by_date_at(entry, sorted@, k as int);
            assert(entries@.take(i + 1).drop_last() =~= entries@.take(i as int));
            assert(entries@.take(i + 1).last() == entries@[i as int]);
        }
        sorted.insert(k, entry);
        i += 1;
    }
    proof {
        assert(entries@.take(entries@.len() as int) =~= entries@);
    }
    sorted
}

/// The history capped to its maximum size: when it overflows, it is sorted
/// by date and cut down to the first `MAX_HISTORY_ENTRIES` entries.
pub open spec fn capped_history(entries: Seq<HistoryEntry>) -> Seq<HistoryEntry> {
    if entries.len() > MAX_HISTORY_ENTRIES {
        sorted_by_date(entries).take(MAX_HISTORY_ENTRIES as int)
    } else {
        entries
    }
}

/// Record that the repository at `path` is open now: refresh its entry's
/// date, or add a new entry titled from the path, then cap the history.
pub fn update_history(settings: &mut Settings, path: &String, now: u64)
    ensures
        final(settings).open_tabs == old(settings).open_tabs,
        final(settings).theme == old(settings).theme,
        ({
            let entries0 = old(settings).repository_history@;
            match find_path_index(entries0, path@) {
                Some(i) => final(settings).repository_history@ == capped_history(
                    entries0.update(
                        i,
                        HistoryEntry {
                            path: entries0[i].path,
                            date: now,
                            title: entries0[i].title,
                        },
                    ),
                ),
                None => exists|entry: HistoryEntry|
                    {
                        &&& entry.path@ == path@
                        &&& entry.date == now
                        &&& entry.title@ == title_of_path(path@)
                        &&& final(settings).repository_history@ == capped_history(
                            #[trigger] entries0.push(entry),
                        )
                    },
            }
        }),
{
    let ghost entries0 = settings.repository_history@;
    proof {
        lemma_find_path_index(entries0, path@);
    }
    let mut j: usize = 0;
    let mut found = false;
    while j < settings.repository_history.len() && !found
        invariant
            j <= settings.repository_history@.len(),
            *settings == *old(settings),
            entries0 == settings.repository_history@,
            !found ==> forall|i: int| 0 <= i < j ==> entries0[i].path@ != path@,
            found ==> j > 0 && entries0[j - 1].path@ == path@ && forall|i: int|
                0 <= i < j - 1 ==> entries0[i].path@ != path@,
        decreases settings.repository_history@.len() - j,
    {
        if settings.repository_history[j].path == *path {
            found = true;
        }
        j += 1;
    }
    if found {
        proof {
            assert(find_path_index(entries0, path@) == Some(j - 1));
        }
        let date_entry = &settings.repository_history[j - 1];
        let refreshed = HistoryEntry {
            path: date_entry.path.clone(),
            date: now,
            title: date_entry.title.clone(),
        };
        settings.repository_history.set(j - 1, refreshed);
        proof {
            assert(refreshed == HistoryEntry {
                path: entries0[j - 1].path,
                date: now,
                title: entries0[j - 1].title,
            });
            assert(settings.repository_history@ == entries0.update(j - 1, refreshed));
        }
    } else {
        proof {
            assert(find_path_index(entries0, path@) is None);
        }
        let fresh = HistoryEntry {
            path: path.clone(),
            date: now,
            title: title_from_path(path.as_str()),
        };
        settings.repository_history.push(fresh);
        proof {
            assert(settings.repository_history@ == entries0.push(fresh));
            assert(fresh.path@ == path@ && fresh.date == now && fresh.title@ == title_of_path(
                path@,
            ));
        }
    }
    let ghost updated = settings.repository_history@;
    if settings.repository_history.len() > MAX_HISTORY_ENTRIES {
        let sorted = sort_history_by_date(&settings.repository_history);
        settings.repository_history = sorted;
        settings.repository_history.truncate(MAX_HISTORY_ENTRIES);
        proof {
            lemma_sorted_by_date_len(updated);
            assert(settings.repository_history@ =~= sorted_by_date(updated).take(
                MAX_HISTORY_ENTRIES as int,
            ));
            assert(settings.repository_history@ == capped_history(updated));
        }
    } else {
        proof {
            assert(settings.repository_history@ == capped_history(updated));
        }
    }
}

} // verus!
