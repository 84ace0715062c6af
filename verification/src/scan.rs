//! What a scan collects: the candidates of each file, under the file's path.

use crate::issue::{issue_views, Issue, IssueView};
use vstd::prelude::*;
use vstd::string::*;

verus! {

/// The candidates found in one file.
pub struct FileIssues {
    pub path: String,
    pub issues: Vec<Issue>,
}

/// What a [`FileIssues`] holds.
pub struct FileIssuesView {
    pub path: Seq<char>,
    pub issues: Seq<IssueView>,
}

impl View for FileIssues {
    type V = FileIssuesView;

    open spec fn view(&self) -> FileIssuesView {
        FileIssuesView { path: self.path@, issues: issue_views(self.issues@) }
    }
}

/// No path stands twice among `entries`.
pub open spec fn distinct_paths(entries: Seq<FileIssuesView>) -> bool {
    forall|i: int, j: int| 0 <= i < j < entries.len() ==> entries[i].path != entries[j].path
}

/// `path` is the path of the entry at `at`.
pub open spec fn has_path_at(entries: Seq<FileIssuesView>, path: Seq<char>, at: int) -> bool {
    0 <= at < entries.len() && entries[at].path == path
}

/// Where the entry of `path` stands among `entries`, if it has one.
pub open spec fn position(entries: Seq<FileIssuesView>, path: Seq<char>) -> Option<int> {
    if exists|at: int| has_path_at(entries, path, at) {
        Some(choose|at: int| has_path_at(entries, path, at))
    } else {
        None
    }
}

/// `entries` after `entry` was recorded: it takes the place of the entry with
/// its path, or comes last where there is none.
pub open spec fn record(entries: Seq<FileIssuesView>, entry: FileIssuesView) -> Seq<
    FileIssuesView,
> {
    match position(entries, entry.path) {
        Some(at) => entries.update(at, entry),
        None => entries.push(entry),
    }
}

/// Among entries with distinct paths, the place of a path is the only place
/// where it stands.
pub proof fn lemma_position_is(entries: Seq<FileIssuesView>, path: Seq<char>, at: int)
    requires
        distinct_paths(entries),
        has_path_at(entries, path, at),
    ensures
        position(entries, path) == Some(at),
{
    let chosen = choose|k: int| has_path_at(entries, path, k);
    assert(has_path_at(entries, path, chosen));
    if chosen < at {
        assert(entries[chosen].path != entries[at].path);
    } else if at < chosen {
        assert(entries[at].path != entries[chosen].path);
    }
}

/// Recording an entry keeps the paths distinct.
pub proof fn lemma_record_distinct(entries: Seq<FileIssuesView>, entry: FileIssuesView)
    requires
        distinct_paths(entries),
    ensures
        distinct_paths(record(entries, entry)),
{
    match position(entries, entry.path) {
        Some(at) => {
            assert(has_path_at(entries, entry.path, at));
        },
        None => {
            assert forall|i: int| 0 <= i < entries.len() implies entries[i].path
                != entry.path by {
                assert(!has_path_at(entries, entry.path, i));
            }
        },
    }
}

/// The candidates of a scan, file by file. No path stands twice.
pub struct ScanResult {
    files: Vec<FileIssues>,
}

impl View for ScanResult {
    type V = Seq<FileIssuesView>;

    closed spec fn view(&self) -> Seq<FileIssuesView> {
        self.files@.map_values(|entry: FileIssues| entry@)
    }
}

impl ScanResult {
    #[verifier::type_invariant]
    spec fn paths_are_distinct(self) -> bool {
        distinct_paths(self@)
    }

    /// A result without files.
    pub fn new() -> (map: ScanResult)
        ensures
            map@ == Seq::<FileIssuesView>::empty(),
    {
        let map = ScanResult { files: Vec::new() };
        assert(map@ =~= Seq::<FileIssuesView>::empty());
        map
    }

    /// The number of files.
    pub fn len(&self) -> (n: usize)
        ensures
            n == self@.len(),
            distinct_paths(self@),
    {
        proof {
            use_type_invariant(self);
        }
        self.files.len()
    }

    /// The entry at `at`, in the order in which the paths first came.
    pub fn get(&self, at: usize) -> (entry: Option<&FileIssues>)
        ensures
            match entry {
                Some(e) => at < self@.len() && e@ == self@[at as int],
                None => at >= self@.len(),
            },
    {
        if at < self.files.len() {
            Some(&self.files[at])
        } else {
            None
        }
    }

    /// The candidate at `index` among those of the file at `file`.
    pub fn issue_at(&self, file: usize, index: usize) -> (issue: Option<&Issue>)
        ensures
            match issue {
                Some(found) => file < self@.len() && index < self@[file as int].issues.len()
                    && found@ == self@[file as int].issues[index as int],
                None => !(file < self@.len() && index < self@[file as int].issues.len()),
            },
    {
        if file < self.files.len() && index < self.files[file].issues.len() {
            Some(&self.files[file].issues[index])
        } else {
            None
        }
    }

    /// Where the entry of `path` stands.
    pub fn position_of(&self, path: &str) -> (at: Option<usize>)
        ensures
            match at {
                Some(k) => position(self@, path@) == Some(k as int) && k < self@.len()
                    && self@[k as int].path == path@,
                None => position(self@, path@) is None,
            },
    {
        proof {
            use_type_invariant(self);
        }
        let wanted: String = path.to_owned();
        let mut k: usize = 0;
        while k < self.files.len()
            invariant
                k <= self.files@.len(),
                distinct_paths(self@),
                wanted@ == path@,
                forall|j: int| 0 <= j < k ==> !has_path_at(self@, path@, j),
            decreases self.files@.len() - k,
        {
            if self.files[k].path == wanted {
                proof {
                    lemma_position_is(self@, path@, k as int);
                }
                return Some(k);
            }
            k += 1;
        }
        None
    }

    /// The candidates found in the file at `path`, if it was scanned.
    pub fn issues_of(&self, path: &str) -> (issues: Option<&Vec<Issue>>)
        ensures
            match issues {
                Some(found) => position(self@, path@) is Some && issue_views(found@)
                    == self@[position(self@, path@).unwrap()].issues,
                None => position(self@, path@) is None,
            },
    {
        match self.position_of(path) {
            Some(k) => Some(&self.files[k].issues),
            None => None,
        }
    }

    /// Records the candidates of a file. They take the place of what was
    /// recorded for the same path before.
    pub fn insert(&mut self, path: String, issues: Vec<Issue>)
        ensures
            final(self)@ == record(
                old(self)@,
                FileIssuesView { path: path@, issues: issue_views(issues@) },
            ),
    {
        proof {
            use_type_invariant(&*self);
            lemma_record_distinct(
                self@,
                FileIssuesView { path: path@, issues: issue_views(issues@) },
            );
        }
        let ghost before = self@;
        let ghost entry = FileIssuesView { path: path@, issues: issue_views(issues@) };
        let place = self.position_of(path.as_str());
        let mut files: Vec<FileIssues> = Vec::new();
        assert(files@.map_values(|e: FileIssues| e@) =~= Seq::<FileIssuesView>::empty());
        core::mem::swap(&mut self.files, &mut files);
        match place {
            Some(k) => {
                files.set(k, FileIssues { path, issues });
                assert(files@.map_values(|e: FileIssues| e@) =~= before.update(k as int, entry));
            },
            None => {
                files.push(FileIssues { path, issues });
                assert(files@.map_values(|e: FileIssues| e@) =~= before.push(entry));
            },
        }
        core::mem::swap(&mut self.files, &mut files);
    }
}

/// The number of candidates in all `entries`.
pub open spec fn total_issues(entries: Seq<FileIssuesView>) -> nat
    decreases entries.len(),
{
    if entries.len() == 0 {
        0
    } else {
        total_issues(entries.drop_last()) + entries.last().issues.len()
    }
}

/// The number of candidates in all `entries`, as far as `usize` can tell it.
pub open spec fn counted(entries: Seq<FileIssuesView>) -> nat {
    if total_issues(entries) <= usize::MAX {
        total_issues(entries)
    } else {
        usize::MAX as nat
    }
}

} // verus!
