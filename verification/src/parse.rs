//! Scanning: which lines hold a `TODO` comment, what title such a line
//! gives, and the candidates that the lines of a file and the files of a
//! tree add up to.

use crate::issue::{
    issue_views, lemma_parse_render, parse_issue, render, survives_edit, Issue, IssueView,
};
use crate::pattern::{glob_matches, pattern_text};
use crate::scan::{
    counted, distinct_paths, lemma_record_distinct, record, FileIssuesView, ScanResult,
};
use crate::text::{
    decimal, find, first_occurrence, is_trimmed, is_whitespace, lemma_first_occurrence,
    lemma_trim_is_piece, lemma_trim_is_trimmed, line_feed, line_texts, occurs, occurs_at, push_decimal, to_chars, trim, trim_bounds, trim_start,
};
use glob::Pattern;
use vstd::hash_set::StringHashSet;
use vstd::prelude::*;
use vstd::string::*;

verus! {

/// The marker that opens a comment in the C style.
pub open spec fn line_comment() -> Seq<char> {
    seq!['/', '/']
}

/// The marker that opens a comment in the style of shell scripts.
pub open spec fn script_comment() -> Seq<char> {
    seq!['#']
}

/// The marker of a task left to do.
pub open spec fn todo_marker() -> Seq<char> {
    seq!['T', 'O', 'D', 'O']
}

/// The smaller of two indices, of which either may be missing.
pub open spec fn earlier(a: Option<int>, b: Option<int>) -> Option<int> {
    match (a, b) {
        (Some(x), Some(y)) => if x <= y {
            Some(x)
        } else {
            Some(y)
        },
        (Some(x), None) => Some(x),
        (None, y) => y,
    }
}

/// Where the first comment marker of `line` stands, of either style.
pub open spec fn comment_index(line: Seq<char>) -> Option<int> {
    earlier(first_occurrence(line, line_comment()), first_occurrence(line, script_comment()))
}

/// Where the first `TODO` of `line` stands.
pub open spec fn todo_index(line: Seq<char>) -> Option<int> {
    first_occurrence(line, todo_marker())
}

/// A line is a candidate when it holds a comment marker and a `TODO`, and its
/// first `TODO` stands after its first comment marker.
pub open spec fn is_candidate(line: Seq<char>) -> bool {
    match (comment_index(line), todo_index(line)) {
        (Some(comment), Some(todo)) => todo > comment,
        _ => false,
    }
}

/// `s` without one leading colon.
pub open spec fn strip_colon(s: Seq<char>) -> Seq<char> {
    if s.len() > 0 && s[0] == ':' {
        s.drop_first()
    } else {
        s
    }
}

/// The title that follows a `TODO` standing at index `todo`: all that comes
/// after the marker, less one leading colon, less the whitespace around it.
pub open spec fn title_after(line: Seq<char>, todo: int) -> Seq<char> {
    trim(strip_colon(line.skip(todo + todo_marker().len())))
}

/// The title that follows the first `TODO` of `line`.
pub open spec fn title_of(line: Seq<char>) -> Seq<char>
    recommends
        occurs(line, todo_marker()),
{
    title_after(line, todo_index(line).unwrap())
}

/// The title that a line gives: that of its first `TODO`, where the line is a
/// candidate.
pub open spec fn detect_title(line: Seq<char>) -> Option<Seq<char>> {
    if is_candidate(line) {
        Some(title_of(line))
    } else {
        None
    }
}

/// The body of an issue found on line `line_number` of the file at `path`.
pub open spec fn body_text(line_number: nat, path: Seq<char>) -> Seq<char> {
    "Found a TODO comment on line "@ + decimal(line_number) + " of file "@ + path
}

/// A comment marker, of either style, stands in `line` at `at`.
pub open spec fn marker_at(line: Seq<char>, at: int) -> bool {
    occurs_at(line, line_comment(), at) || occurs_at(line, script_comment(), at)
}

/// A comment marker stands in `line` before index `end`.
pub open spec fn marker_before(line: Seq<char>, end: int) -> bool {
    exists|at: int| #[trigger] marker_at(line, at) && at < end
}

/// Some `TODO` of `line` has a comment marker before it.
pub open spec fn marker_before_some_todo(line: Seq<char>) -> bool {
    exists|todo: int| #[trigger] occurs_at(line, todo_marker(), todo) && marker_before(line, todo)
}

/// The first `TODO` of `line` has no comment marker before it, but a later
/// one has.
pub open spec fn only_later_todo_is_marked(line: Seq<char>) -> bool {
    &&& marker_before_some_todo(line)
    &&& todo_index(line) matches Some(first) && !marker_before(line, first)
}

/// The first comment marker of a line is a comment marker, and none stands
/// before it.
pub proof fn lemma_comment_index(line: Seq<char>)
    ensures
        match comment_index(line) {
            Some(first) => marker_at(line, first) && forall|at: int|
                #[trigger] marker_at(line, at) ==> first <= at,
            None => forall|at: int| !#[trigger] marker_at(line, at),
        },
{
    lemma_first_occurrence(line, line_comment());
    lemma_first_occurrence(line, script_comment());
    assert forall|at: int| #[trigger] marker_at(line, at) implies comment_index(line) is Some
        && comment_index(line).unwrap() <= at by {
        if occurs_at(line, line_comment(), at) {
            let first = first_occurrence(line, line_comment()).unwrap();
            if at < first {
                assert(!occurs_at(line, line_comment(), at));
            }
        } else {
            let first = first_occurrence(line, script_comment()).unwrap();
            if at < first {
                assert(!occurs_at(line, script_comment(), at));
            }
        }
    }
}

/// A line is a candidate if and only if a comment marker stands before its
/// first `TODO`.
pub proof fn lemma_candidate_iff_marker_before_first_todo(line: Seq<char>)
    ensures
        is_candidate(line) <==> (todo_index(line) matches Some(first) && marker_before(
            line,
            first,
        )),
{
    lemma_comment_index(line);
    if is_candidate(line) {
        let comment = comment_index(line).unwrap();
        assert(marker_at(line, comment));
    }
    if todo_index(line) is Some && marker_before(line, todo_index(line).unwrap()) {
        let first = todo_index(line).unwrap();
        let at = choose|at: int| #[trigger] marker_at(line, at) && at < first;
        assert(marker_at(line, at));
    }
}

/// A line is a candidate if and only if it holds a comment marker at some
/// index and a `TODO` at a greater one. Left out are the lines whose first
/// `TODO` has no marker before it while a later one has: the first `TODO` is
/// the one that counts, so they are no candidates.
pub proof fn lemma_candidate_iff_marker_before_todo(line: Seq<char>)
    requires
        !only_later_todo_is_marked(line),
    ensures
        is_candidate(line) <==> marker_before_some_todo(line),
{
    lemma_candidate_iff_marker_before_first_todo(line);
    lemma_first_occurrence(line, todo_marker());
    if is_candidate(line) {
        let first = todo_index(line).unwrap();
        assert(occurs_at(line, todo_marker(), first) && marker_before(line, first));
    }
    if marker_before_some_todo(line) {
        let todo = choose|todo: int| #[trigger]
            occurs_at(line, todo_marker(), todo) && marker_before(line, todo);
        assert(occurs_at(line, todo_marker(), todo));
    }
}

/// A candidate always holds a comment marker at some index and a `TODO` at a
/// greater one.
pub proof fn lemma_candidate_has_marker_before_todo(line: Seq<char>)
    requires
        is_candidate(line),
    ensures
        marker_before_some_todo(line),
{
    lemma_candidate_iff_marker_before_first_todo(line);
    lemma_first_occurrence(line, todo_marker());
    let first = todo_index(line).unwrap();
    assert(occurs_at(line, todo_marker(), first) && marker_before(line, first));
}

/// Stripping takes at most one colon, and only from the front.
pub proof fn lemma_strip_colon(s: Seq<char>)
    ensures
        strip_colon(s) == s || (s.len() > 0 && s[0] == ':' && strip_colon(s) == s.drop_first()),
        s.len() > 0 && s[0] == ':' ==> strip_colon(s) == s.drop_first(),
{
}

/// A title carries no whitespace at either end.
pub proof fn lemma_title_is_trimmed(line: Seq<char>, todo: int)
    ensures
        is_trimmed(title_after(line, todo)),
{
    lemma_trim_is_trimmed(strip_colon(line.skip(todo + todo_marker().len())));
}

/// A line whose title is known gives no candidate. The title is compared as
/// it is after trimming.
pub proof fn lemma_known_title_is_suppressed(
    line: Seq<char>,
    line_number: nat,
    path: Seq<char>,
    known: Set<Seq<char>>,
)
    requires
        is_candidate(line),
        known.contains(title_of(line)),
    ensures
        candidate(line, line_number, path, known) is None,
{
}

/// The body of an issue holds the words `line N`, where `N` is the number of
/// the line in base ten, and ends with the path of the file.
pub proof fn lemma_body_names_line_and_file(line_number: nat, path: Seq<char>)
    ensures
        occurs(body_text(line_number, path), "line "@ + decimal(line_number)),
        body_text(line_number, path).len() >= path.len(),
        body_text(line_number, path).skip(body_text(line_number, path).len() - path.len())
            == path,
{
    reveal_strlit("Found a TODO comment on line ");
    reveal_strlit("line ");
    let body = body_text(line_number, path);
    let words = "line "@ + decimal(line_number);
    assert(body.subrange(24, 24 + words.len() as int) =~= words);
    assert(occurs_at(body, words, 24));
    assert(body.skip(body.len() - path.len()) =~= path);
}

/// Where the first comment marker and the first `TODO` of a line stand.
fn locate(chars: &[char]) -> (found: (Option<usize>, Option<usize>))
    ensures
        match found.0 {
            Some(comment) => comment_index(chars@) == Some(comment as int),
            None => comment_index(chars@) is None,
        },
        match found.1 {
            Some(todo) => todo_index(chars@) == Some(todo as int) && todo + 4 <= chars@.len(),
            None => todo_index(chars@) is None,
        },
{
    let slashes: Vec<char> = vec!['/', '/'];
    let hash: Vec<char> = vec!['#'];
    let marker: Vec<char> = vec!['T', 'O', 'D', 'O'];
    assert(slashes@ =~= line_comment());
    assert(hash@ =~= script_comment());
    assert(marker@ =~= todo_marker());
    let comment = match (find(chars, slashes.as_slice()), find(chars, hash.as_slice())) {
        (Some(x), Some(y)) => if x <= y {
            Some(x)
        } else {
            Some(y)
        },
        (Some(x), None) => Some(x),
        (None, y) => y,
    };
    (comment, find(chars, marker.as_slice()))
}

/// The bounds, within the line, of the title that follows the `TODO` at `todo`.
fn title_bounds(chars: &[char], todo: usize) -> (bounds: (usize, usize))
    requires
        todo + 4 <= chars@.len(),
    ensures
        bounds.0 <= bounds.1 <= chars@.len(),
        chars@.subrange(bounds.0 as int, bounds.1 as int) == title_after(chars@, todo as int),
{
    let end: usize = chars.len();
    let after: usize = todo + 4;
    assert(chars@.skip(after as int) =~= chars@.subrange(after as int, end as int));
    if after < end && chars[after] == ':' {
        assert(chars@.skip(after as int).drop_first() =~= chars@.subrange(after + 1, end as int));
        trim_bounds(chars, after + 1, end)
    } else {
        trim_bounds(chars, after, end)
    }
}

/// Whether `line` holds a `TODO` comment.
pub fn contains_todo(line: &str) -> (found: bool)
    ensures
        found == is_candidate(line@),
{
    let chars = to_chars(line);
    match locate(chars.as_slice()) {
        (Some(comment), Some(todo)) => todo > comment,
        _ => false,
    }
}

/// The title that follows the first `TODO` of `line`.
pub fn extract_title(line: &str) -> (title: String)
    requires
        occurs(line@, todo_marker()),
    ensures
        title@ == title_of(line@),
{
    let chars = to_chars(line);
    match locate(chars.as_slice()).1 {
        Some(todo) => {
            let (from, to) = title_bounds(chars.as_slice(), todo);
            line.substring_char(from, to).to_owned()
        },
        None => {
            proof {
                lemma_first_occurrence(line@, todo_marker());
            }
            String::new()
        },
    }
}

/// The title that follows the first `TODO` of `line`: the same as
/// [`extract_title`].
pub fn parse_title(line: &str) -> (title: String)
    requires
        occurs(line@, todo_marker()),
    ensures
        title@ == title_of(line@),
{
    extract_title(line)
}

/// The title that `line` gives, if it holds a `TODO` comment. The title is
/// empty where nothing but whitespace follows the marker.
pub fn detect(line: &str) -> (title: Option<String>)
    ensures
        match title {
            Some(t) => detect_title(line@) == Some(t@),
            None => detect_title(line@) is None,
        },
{
    let chars = to_chars(line);
    match locate(chars.as_slice()) {
        (Some(comment), Some(todo)) => {
            if todo > comment {
                let (from, to) = title_bounds(chars.as_slice(), todo);
                Some(line.substring_char(from, to).to_owned())
            } else {
                None
            }
        },
        _ => None,
    }
}

/// The body of an issue found on the given line of the given file.
pub fn body_for(line_number: usize, file_path: &str) -> (body: String)
    ensures
        body@ == body_text(line_number as nat, file_path@),
{
    let mut body = String::from_str("Found a TODO comment on line ");
    push_decimal(&mut body, line_number);
    body.append(" of file ");
    body.append(file_path);
    body
}

/// The body of an issue found on the given line of the given file.
pub fn create_body(line_number: &u32, file_path: &str) -> (body: String)
    ensures
        body@ == body_text(*line_number as nat, file_path@),
{
    body_for(*line_number as usize, file_path)
}

/// The description of an issue found on the given line of the given file:
/// the same as [`create_body`].
pub fn create_description(line_number: &u32, file_path: &str) -> (description: String)
    ensures
        description@ == body_text(*line_number as nat, file_path@),
{
    create_body(line_number, file_path)
}

/// The titles of the issues that the tracker already holds.
pub struct KnownTitles {
    titles: StringHashSet,
}

impl View for KnownTitles {
    type V = Set<Seq<char>>;

    closed spec fn view(&self) -> Set<Seq<char>> {
        self.titles@
    }
}

impl KnownTitles {
    /// No title.
    pub fn new() -> (known: KnownTitles)
        ensures
            known@ == Set::<Seq<char>>::empty(),
    {
        KnownTitles { titles: StringHashSet::new() }
    }

    /// Adds a title, and says whether it is new.
    pub fn insert(&mut self, title: String) -> (fresh: bool)
        ensures
            final(self)@ == old(self)@.insert(title@),
            fresh == !old(self)@.contains(title@),
    {
        self.titles.insert(title)
    }

    /// Whether `title` is among the known ones, letter for letter.
    pub fn contains(&self, title: &str) -> (known: bool)
        ensures
            known == self@.contains(title@),
    {
        self.titles.contains(title)
    }
}

/// The candidate that a line gives: its title and the body that names the
/// place, unless the line gives no title, an empty one, or a known one.
pub open spec fn candidate(
    line: Seq<char>,
    line_number: nat,
    path: Seq<char>,
    known: Set<Seq<char>>,
) -> Option<IssueView> {
    match detect_title(line) {
        Some(title) if title.len() > 0 && !known.contains(title) => Some(
            IssueView { title, body: body_text(line_number, path) },
        ),
        _ => None,
    }
}

/// A candidate is given back unchanged by its text form, where its line
/// holds no line feed and the path of its file is not empty and does not end
/// with whitespace.
pub proof fn lemma_candidate_survives_edit(
    line: Seq<char>,
    line_number: nat,
    path: Seq<char>,
    known: Set<Seq<char>>,
)
    requires
        candidate(line, line_number, path, known) is Some,
        !occurs(line, line_feed()),
        path.len() > 0 && !is_whitespace(path.last()),
    ensures
        survives_edit(candidate(line, line_number, path, known).unwrap()),
        parse_issue(render(candidate(line, line_number, path, known).unwrap())) == Some(
            candidate(line, line_number, path, known).unwrap(),
        ),
{
    let issue = candidate(line, line_number, path, known).unwrap();
    let todo = todo_index(line).unwrap();
    lemma_first_occurrence(line, todo_marker());
    let rest = line.skip(todo + todo_marker().len());
    let stripped = strip_colon(rest);
    lemma_title_is_trimmed(line, todo);
    lemma_trim_is_piece(stripped);
    let lead = stripped.len() - trim_start(stripped).len();
    let shift = todo + todo_marker().len() + (rest.len() - stripped.len()) + lead;
    assert forall|at: int| !occurs_at(issue.title, line_feed(), at) by {
        if occurs_at(issue.title, line_feed(), at) {
            assert(issue.title.subrange(at, at + 1)[0] == line_feed()[0]);
            assert(issue.title[at] == stripped[lead + at]);
            assert(stripped[lead + at] == line[shift + at]);
            assert(line.subrange(shift + at, shift + at + 1) =~= line_feed());
            assert(occurs_at(line, line_feed(), shift + at));
        }
    }
    reveal_strlit("Found a TODO comment on line ");
    assert(issue.body[0] == 'F');
    assert(issue.body.last() == path.last());
    lemma_parse_render(issue);
}

/// Makes the candidate that a line gives, if it gives one.
pub fn build(line: &str, line_number: usize, file_path: &str, known: &KnownTitles) -> (made: Option<
    Issue,
>)
    ensures
        match made {
            Some(issue) => candidate(line@, line_number as nat, file_path@, known@) == Some(
                issue@,
            ),
            None => candidate(line@, line_number as nat, file_path@, known@) is None,
        },
{
    match detect(line) {
        None => None,
        Some(title) => {
            if known.contains(title.as_str()) {
                None
            } else {
                Issue::new(title, body_for(line_number, file_path))
            }
        },
    }
}

/// The candidates of a file, in the order of its lines. Lines count from one.
pub open spec fn file_candidates(
    lines: Seq<Seq<char>>,
    path: Seq<char>,
    known: Set<Seq<char>>,
) -> Seq<IssueView>
    decreases lines.len(),
{
    if lines.len() == 0 {
        Seq::empty()
    } else {
        let before = file_candidates(lines.drop_last(), path, known);
        match candidate(lines.last(), lines.len(), path, known) {
            Some(issue) => before.push(issue),
            None => before,
        }
    }
}

/// Every candidate of a file has a title that is not empty, carries no
/// whitespace at either end and is not known; its body names the file and a
/// line of it.
pub proof fn lemma_file_candidates_are_fresh(
    lines: Seq<Seq<char>>,
    path: Seq<char>,
    known: Set<Seq<char>>,
)
    ensures
        file_candidates(lines, path, known).len() <= lines.len(),
        forall|i: int|
            0 <= i < file_candidates(lines, path, known).len() ==> {
                let issue = #[trigger] file_candidates(lines, path, known)[i];
                &&& issue.title.len() > 0
                &&& is_trimmed(issue.title)
                &&& !known.contains(issue.title)
                &&& exists|n: nat| 1 <= n <= lines.len() && issue.body == #[trigger] body_text(n, path)
            },
    decreases lines.len(),
{
    if lines.len() > 0 {
        lemma_file_candidates_are_fresh(lines.drop_last(), path, known);
        let before = file_candidates(lines.drop_last(), path, known);
        let all = file_candidates(lines, path, known);
        assert forall|i: int| 0 <= i < all.len() implies {
            let issue = #[trigger] all[i];
            &&& issue.title.len() > 0
            &&& is_trimmed(issue.title)
            &&& !known.contains(issue.title)
            &&& exists|n: nat| 1 <= n <= lines.len() && issue.body == #[trigger] body_text(n, path)
        } by {
            if i < before.len() {
                assert(all[i] == before[i]);
                let n = choose|n: nat|
                    1 <= n <= lines.len() - 1 && before[i].body == #[trigger] body_text(n, path);
                assert(all[i].body == body_text(n, path));
            } else {
                lemma_title_is_trimmed(lines.last(), todo_index(lines.last()).unwrap());
                assert(all[i].body == body_text(lines.len(), path));
            }
        }
    }
}

/// The candidates of a file stand in the order of its lines: those of its
/// first `k` lines come first, whatever follows.
pub proof fn lemma_file_candidates_in_line_order(
    lines: Seq<Seq<char>>,
    path: Seq<char>,
    known: Set<Seq<char>>,
    k: int,
)
    requires
        0 <= k <= lines.len(),
    ensures
        file_candidates(lines.take(k), path, known).len() <= file_candidates(
            lines,
            path,
            known,
        ).len(),
        file_candidates(lines.take(k), path, known) == file_candidates(lines, path, known).take(
            file_candidates(lines.take(k), path, known).len() as int,
        ),
    decreases lines.len(),
{
    if k == lines.len() {
        assert(lines.take(k) =~= lines);
        let all = file_candidates(lines, path, known);
        assert(all =~= all.take(all.len() as int));
    } else {
        lemma_file_candidates_in_line_order(lines.drop_last(), path, known, k);
        assert(lines.drop_last().take(k) =~= lines.take(k));
        let first = file_candidates(lines.take(k), path, known);
        let all = file_candidates(lines, path, known);
        assert(first =~= all.take(first.len() as int));
    }
}

/// Two scans of the same lines, under the same path and against the same
/// known titles, find the same candidates in the same order.
pub proof fn lemma_rescan_finds_the_same(
    lines: Seq<Seq<char>>,
    path: Seq<char>,
    known: Set<Seq<char>>,
    first: Seq<Issue>,
    second: Seq<Issue>,
)
    requires
        issue_views(first) == file_candidates(lines, path, known),
        issue_views(second) == file_candidates(lines, path, known),
    ensures
        issue_views(first) == issue_views(second),
        first.len() == second.len(),
        forall|i: int| 0 <= i < first.len() ==> first[i]@ == second[i]@,
{
    assert(issue_views(first).len() == first.len());
    assert(issue_views(second).len() == second.len());
    assert forall|i: int| 0 <= i < first.len() implies first[i]@ == second[i]@ by {
        assert(issue_views(first)[i] == first[i]@);
        assert(issue_views(second)[i] == second[i]@);
    }
}

/// Collects the candidates of the file at `path`, whose lines are `lines`.
pub fn find_issues(path: &str, lines: &Vec<String>, prev_issues: &KnownTitles) -> (found: Vec<
    Issue,
>)
    ensures
        issue_views(found@) == file_candidates(line_texts(lines@), path@, prev_issues@),
{
    let mut found: Vec<Issue> = Vec::new();
    let mut i: usize = 0;
    assert(issue_views(found@) =~= Seq::empty());
    while i < lines.len()
        invariant
            i <= lines.len(),
            issue_views(found@) == file_candidates(
                line_texts(lines@).take(i as int),
                path@,
                prev_issues@,
            ),
        decreases lines.len() - i,
    {
        let ghost before = issue_views(found@);
        let ghost texts = line_texts(lines@).take(i + 1);
        assert(texts.drop_last() =~= line_texts(lines@).take(i as int));
        assert(texts.last() == lines@[i as int]@);
        match build(lines[i].as_str(), i + 1, path, prev_issues) {
            Some(issue) => {
                found.push(issue);
                assert(issue_views(found@) =~= before.push(issue@));
            },
            None => {},
        }
        i += 1;
    }
    assert(line_texts(lines@).take(i as int) =~= line_texts(lines@));
    found
}

/// A tracked file as it was read: its path, and its lines where it could be
/// read.
pub struct SourceFile {
    pub path: String,
    pub lines: Option<Vec<String>>,
}

/// What a [`SourceFile`] holds.
pub struct SourceFileView {
    pub path: Seq<char>,
    pub lines: Option<Seq<Seq<char>>>,
}

impl View for SourceFile {
    type V = SourceFileView;

    open spec fn view(&self) -> SourceFileView {
        SourceFileView {
            path: self.path@,
            lines: match self.lines {
                Some(lines) => Some(line_texts(lines@)),
                None => None,
            },
        }
    }
}

/// The views of a sequence of files.
pub open spec fn file_views(files: Seq<SourceFile>) -> Seq<SourceFileView> {
    files.map_values(|file: SourceFile| file@)
}

/// The candidates of a tree, file by file, in the order in which each path
/// first came. A file is scanned where its path matches the pattern and it
/// could be read. Where a path comes twice, its later scan stands.
pub open spec fn scan_files(
    files: Seq<SourceFileView>,
    known: Set<Seq<char>>,
    pattern: Seq<char>,
) -> Seq<FileIssuesView>
    decreases files.len(),
{
    if files.len() == 0 {
        Seq::empty()
    } else {
        let before = scan_files(files.drop_last(), known, pattern);
        let file = files.last();
        match file.lines {
            Some(lines) if glob_matches(pattern, file.path) => record(
                before,
                FileIssuesView { path: file.path, issues: file_candidates(lines, file.path, known) },
            ),
            _ => before,
        }
    }
}

/// No path stands twice in what a scan collects.
pub proof fn lemma_scan_files_distinct(
    files: Seq<SourceFileView>,
    known: Set<Seq<char>>,
    pattern: Seq<char>,
)
    ensures
        distinct_paths(scan_files(files, known, pattern)),
    decreases files.len(),
{
    if files.len() > 0 {
        lemma_scan_files_distinct(files.drop_last(), known, pattern);
        let before = scan_files(files.drop_last(), known, pattern);
        let file = files.last();
        if file.lines is Some && glob_matches(pattern, file.path) {
            lemma_record_distinct(
                before,
                FileIssuesView {
                    path: file.path,
                    issues: file_candidates(file.lines.unwrap(), file.path, known),
                },
            );
        }
    }
}

/// The test that a path matches the pattern compiled from `pattern`.
pub open spec fn matching(pattern: Seq<char>) -> spec_fn(Seq<char>) -> bool {
    |path: Seq<char>| glob_matches(pattern, path)
}

/// Picks the paths that match `pattern`, in their order: the files that a
/// scan with this pattern reads.
pub fn matching_files(files: &Vec<String>, pattern: &Pattern) -> (picked: Vec<String>)
    ensures
        line_texts(picked@) == line_texts(files@).filter(matching(pattern_text(*pattern))),
{
    let mut picked: Vec<String> = Vec::new();
    let mut i: usize = 0;
    proof {
        reveal(Seq::filter);
        assert(line_texts(files@).take(0) =~= Seq::empty());
        assert(line_texts(picked@) =~= Seq::empty());
    }
    while i < files.len()
        invariant
            i <= files.len(),
            line_texts(picked@) == line_texts(files@).take(i as int).filter(
                matching(pattern_text(*pattern)),
            ),
        decreases files.len() - i,
    {
        let ghost before = line_texts(picked@);
        proof {
            let seen = line_texts(files@).take(i as int);
            seen.lemma_filter_push(files@[i as int]@, matching(pattern_text(*pattern)));
            assert(seen.push(files@[i as int]@) =~= line_texts(files@).take(i + 1));
        }
        if pattern.matches(files[i].as_str()) {
            picked.push(files[i].clone());
            assert(line_texts(picked@) =~= before.push(files@[i as int]@));
        }
        i += 1;
    }
    assert(line_texts(files@).take(i as int) =~= line_texts(files@));
    picked
}

/// Scans the files whose path matches `pattern` and which could be read, and
/// collects their candidates file by file.
pub fn populate_map(files: &Vec<SourceFile>, issues: &KnownTitles, pattern: &Pattern) -> (map:
    ScanResult)
    ensures
        map@ == scan_files(file_views(files@), issues@, pattern_text(*pattern)),
        distinct_paths(map@),
{
    proof {
        lemma_scan_files_distinct(file_views(files@), issues@, pattern_text(*pattern));
    }
    let mut map = ScanResult::new();
    let mut i: usize = 0;
    while i < files.len()
        invariant
            i <= files.len(),
            map@ == scan_files(file_views(files@).take(i as int), issues@, pattern_text(*pattern)),
        decreases files.len() - i,
    {
        let ghost views = file_views(files@).take(i + 1);
        assert(views.drop_last() =~= file_views(files@).take(i as int));
        assert(views.last() == files@[i as int]@);
        let file = &files[i];
        if pattern.matches(file.path.as_str()) {
            match &file.lines {
                Some(lines) => {
                    let found = find_issues(file.path.as_str(), lines, issues);
                    map.insert(file.path.clone(), found);
                },
                None => {},
            }
        }
        i += 1;
    }
    assert(file_views(files@).take(i as int) =~= file_views(files@));
    map
}

/// Counts the candidates of a scan. The count stops at `usize::MAX`.
pub fn count_issues(map: &ScanResult) -> (total: usize)
    ensures
        total == counted(map@),
{
    let mut total: usize = 0;
    let mut i: usize = 0;
    let n: usize = map.len();
    while i < n
        invariant
            i <= n == map@.len(),
            total == counted(map@.take(i as int)),
        decreases n - i,
    {
        assert(map@.take(i + 1).drop_last() =~= map@.take(i as int));
        match map.get(i) {
            Some(entry) => {
                total = total.saturating_add(entry.issues.len());
            },
            None => {},
        }
        i += 1;
    }
    assert(map@.take(i as int) =~= map@);
    total
}

/// The line of the summary that speaks of one file.
pub open spec fn file_line(entry: FileIssuesView) -> Seq<char> {
    "Found "@ + decimal(entry.issues.len()) + " issues in file "@ + entry.path
}

/// The line of the summary that gives the total.
pub open spec fn total_line(total: nat) -> Seq<char> {
    "Found "@ + decimal(total) + " issues total."@
}

/// The lines of the summary that speak of the files: one for each file that
/// holds a candidate, in the order of the files.
pub open spec fn file_lines(entries: Seq<FileIssuesView>) -> Seq<Seq<char>>
    decreases entries.len(),
{
    if entries.len() == 0 {
        Seq::empty()
    } else {
        let before = file_lines(entries.drop_last());
        if entries.last().issues.len() > 0 {
            before.push(file_line(entries.last()))
        } else {
            before
        }
    }
}

/// The summary of a scan: the lines of its files, then the total.
pub open spec fn summary(entries: Seq<FileIssuesView>) -> Seq<Seq<char>> {
    file_lines(entries).push(total_line(counted(entries)))
}

/// Sums a scan up for the user, line by line. Files without candidates are
/// passed over.
pub fn summarize(map: &ScanResult) -> (lines: Vec<String>)
    ensures
        line_texts(lines@) == summary(map@),
{
    let mut lines: Vec<String> = Vec::new();
    let n: usize = map.len();
    let mut i: usize = 0;
    assert(line_texts(lines@) =~= Seq::empty());
    while i < n
        invariant
            i <= n == map@.len(),
            line_texts(lines@) == file_lines(map@.take(i as int)),
        decreases n - i,
    {
        let ghost before = line_texts(lines@);
        assert(map@.take(i + 1).drop_last() =~= map@.take(i as int));
        match map.get(i) {
            Some(entry) => {
                if entry.issues.len() > 0 {
                    let mut line = String::from_str("Found ");
                    push_decimal(&mut line, entry.issues.len());
                    line.append(" issues in file ");
                    line.append(entry.path.as_str());
                    lines.push(line);
                    assert(line_texts(lines@) =~= before.push(file_line(entry@)));
                }
            },
            None => {},
        }
        i += 1;
    }
    assert(map@.take(i as int) =~= map@);
    let ghost listed = line_texts(lines@);
    let mut last = String::from_str("Found ");
    push_decimal(&mut last, count_issues(map));
    last.append(" issues total.");
    lines.push(last);
    assert(line_texts(lines@) =~= listed.push(total_line(counted(map@))));
    lines
}

/// What the user is told of a file that could not be read.
pub open spec fn unreadable_text(path: Seq<char>, cause: Seq<char>) -> Seq<char> {
    "Could not read "@ + path + ": "@ + cause
}

/// What the user is told of a file that could not be read and is passed over.
pub fn unreadable_message(path: &str, cause: &str) -> (text: String)
    ensures
        text@ == unreadable_text(path@, cause@),
{
    let mut text = String::from_str("Could not read ");
    text.append(path);
    text.append(": ");
    text.append(cause);
    text
}

} // verus!
