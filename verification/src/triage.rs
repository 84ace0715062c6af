//! Triage: the candidates of a scan are presented one after the other, and
//! the user's choice decides what becomes of each. This module holds the
//! decisions; asking the user, running the editor and talking to the tracker
//! are left to the caller, who reports back what happened.

use crate::issue::{parse_issue, Issue, IssueView};
use crate::scan::{FileIssuesView, ScanResult};
use vstd::prelude::*;

verus! {

/// The choice that submits the candidate as it is.
pub const OPEN: usize = 0;

/// The choice that hands the candidate to the editor first.
pub const EDIT: usize = 1;

/// The choice that passes over the candidate.
pub const SKIP: usize = 2;

/// The choice that ends the run.
pub const EXIT: usize = 3;

/// What the user is asked when a candidate is presented.
pub const QUESTION: &'static str = "What would you like to do?";

/// What the user is told of an edit that is no issue.
pub const INVALID_FORMAT: &'static str = "Invalid format. Failed to create issue.";

/// What the user is told when no candidate is left.
pub const ALL_DONE: &'static str = "All done!";

/// The labels of the choices, in the order of their numbers.
pub fn selections() -> (labels: [&'static str; 4])
    ensures
        labels@[OPEN as int]@ == "Open Issue"@,
        labels@[EDIT as int]@ == "Edit Issue"@,
        labels@[SKIP as int]@ == "Skip"@,
        labels@[EXIT as int]@ == "Exit"@,
{
    ["Open Issue", "Edit Issue", "Skip", "Exit"]
}

/// Where a run of triage stands. A state that deals with a candidate names
/// its place in the scan: the number of its file and its number in that file.
pub enum TriageState {
    /// `issue` is shown and a choice is awaited.
    Presenting { file: usize, index: usize, issue: Issue },
    /// `issue` is in the editor.
    Editing { file: usize, index: usize, issue: Issue },
    /// `issue` is on its way to the tracker.
    Submitting { file: usize, index: usize, issue: Issue },
    /// The user has ended the run.
    Aborted,
    /// No candidate is left.
    Completed,
}

/// What a [`TriageState`] holds.
pub enum StateView {
    Presenting { file: int, index: int, issue: IssueView },
    Editing { file: int, index: int, issue: IssueView },
    Submitting { file: int, index: int, issue: IssueView },
    Aborted,
    Completed,
}

impl View for TriageState {
    type V = StateView;

    open spec fn view(&self) -> StateView {
        match *self {
            TriageState::Presenting { file, index, issue } => StateView::Presenting {
                file: file as int,
                index: index as int,
                issue: issue@,
            },
            TriageState::Editing { file, index, issue } => StateView::Editing {
                file: file as int,
                index: index as int,
                issue: issue@,
            },
            TriageState::Submitting { file, index, issue } => StateView::Submitting {
                file: file as int,
                index: index as int,
                issue: issue@,
            },
            TriageState::Aborted => StateView::Aborted,
            TriageState::Completed => StateView::Completed,
        }
    }
}

/// What the caller reports back.
pub enum Event {
    /// The user picked the choice with this number.
    Selected(usize),
    /// The editor returned this text, or the user gave the edit up.
    Edited(Option<String>),
    /// The tracker took the issue (`true`), or the submission failed.
    Submitted(bool),
}

/// What an [`Event`] holds.
pub enum EventView {
    Selected(int),
    Edited(Option<Seq<char>>),
    Submitted(bool),
}

impl View for Event {
    type V = EventView;

    open spec fn view(&self) -> EventView {
        match *self {
            Event::Selected(choice) => EventView::Selected(choice as int),
            Event::Edited(text) => EventView::Edited(
                match text {
                    Some(t) => Some(t@),
                    None => None,
                },
            ),
            Event::Submitted(accepted) => EventView::Submitted(accepted),
        }
    }
}

/// What a step made of the candidate at hand.
#[derive(Clone, Copy, PartialEq, Eq, Structural, Debug)]
pub enum Report {
    /// Nothing that the user needs to be told.
    Silent,
    /// The candidate was passed over.
    Skipped,
    /// The issue was created.
    Opened,
    /// The submission failed.
    OpenFailed,
    /// The edited text is no issue.
    InvalidFormat,
}

/// There is a candidate at `index` in the file at `file`.
pub open spec fn in_range(entries: Seq<FileIssuesView>, file: int, index: int) -> bool {
    0 <= file < entries.len() && 0 <= index < entries[file].issues.len()
}

/// The state that presents the candidate at `index` of `file`.
pub open spec fn presenting(entries: Seq<FileIssuesView>, file: int, index: int) -> StateView {
    StateView::Presenting { file, index, issue: entries[file].issues[index] }
}

/// The state that presents the first candidate of the files from `file` on,
/// or `Completed` where these hold none.
pub open spec fn first_from(entries: Seq<FileIssuesView>, file: int) -> StateView
    decreases entries.len() - file,
{
    if file < 0 || file >= entries.len() {
        StateView::Completed
    } else if entries[file].issues.len() > 0 {
        presenting(entries, file, 0)
    } else {
        first_from(entries, file + 1)
    }
}

/// The state in which a run begins.
pub open spec fn initial(entries: Seq<FileIssuesView>) -> StateView {
    first_from(entries, 0)
}

/// The state that follows the handling of the candidate at `index` of `file`:
/// the next candidate is presented, or the run is complete.
pub open spec fn following(entries: Seq<FileIssuesView>, file: int, index: int) -> StateView {
    if in_range(entries, file, index + 1) {
        presenting(entries, file, index + 1)
    } else {
        first_from(entries, file + 1)
    }
}

/// The step of the triage: the state and the report that an event leads to.
/// An event that the state does not await changes nothing.
pub open spec fn transition(entries: Seq<FileIssuesView>, state: StateView, event: EventView) -> (
    StateView,
    Report,
) {
    match (state, event) {
        (StateView::Presenting { file, index, issue }, EventView::Selected(choice)) => {
            if choice == OPEN {
                (StateView::Submitting { file, index, issue }, Report::Silent)
            } else if choice == EDIT {
                (StateView::Editing { file, index, issue }, Report::Silent)
            } else if choice == EXIT {
                (StateView::Aborted, Report::Silent)
            } else {
                (following(entries, file, index), Report::Skipped)
            }
        },
        (StateView::Editing { file, index, issue }, EventView::Edited(Some(text))) => {
            match parse_issue(text) {
                Some(edited) => (
                    StateView::Submitting { file, index, issue: edited },
                    Report::Silent,
                ),
                None => (following(entries, file, index), Report::InvalidFormat),
            }
        },
        (StateView::Editing { file, index, issue }, EventView::Edited(None)) => (
            following(entries, file, index),
            Report::InvalidFormat,
        ),
        (StateView::Submitting { file, index, issue }, EventView::Submitted(accepted)) => (
            following(entries, file, index),
            if accepted {
                Report::Opened
            } else {
                Report::OpenFailed
            },
        ),
        _ => (state, Report::Silent),
    }
}

/// The state that a sequence of events leads to, taken one after the other.
pub open spec fn run(entries: Seq<FileIssuesView>, state: StateView, events: Seq<EventView>) -> StateView
    decreases events.len(),
{
    if events.len() == 0 {
        state
    } else {
        run(entries, transition(entries, state, events[0]).0, events.drop_first())
    }
}

/// The issues that are handed to the tracker in the course of the events:
/// one for every step that leads into `Submitting`, in the order of the steps.
pub open spec fn submitted(
    entries: Seq<FileIssuesView>,
    state: StateView,
    events: Seq<EventView>,
) -> Seq<IssueView>
    decreases events.len(),
{
    if events.len() == 0 {
        Seq::empty()
    } else {
        let next = transition(entries, state, events[0]).0;
        let later = submitted(entries, next, events.drop_first());
        if next is Submitting && !(state is Submitting) {
            seq![next->Submitting_issue] + later
        } else {
            later
        }
    }
}

/// The event is a choice to open or to edit the candidate.
pub open spec fn consents(event: EventView) -> bool {
    event == EventView::Selected(OPEN as int) || event == EventView::Selected(EDIT as int)
}

/// The run is over.
pub open spec fn is_over(state: StateView) -> bool {
    state is Aborted || state is Completed
}

/// The state speaks of a candidate that the scan holds; where it presents
/// one or has one edited, it is that candidate.
pub open spec fn well_placed(entries: Seq<FileIssuesView>, state: StateView) -> bool {
    match state {
        StateView::Presenting { file, index, issue } => in_range(entries, file, index) && issue
            == entries[file].issues[index],
        StateView::Editing { file, index, issue } => in_range(entries, file, index) && issue
            == entries[file].issues[index],
        StateView::Submitting { file, index, issue } => in_range(entries, file, index),
        _ => true,
    }
}

/// A candidate stands after the place `(file, index)`: later in the same
/// file, or in a later file.
pub open spec fn has_later(entries: Seq<FileIssuesView>, file: int, index: int) -> bool {
    exists|f: int, i: int|
        #[trigger] in_range(entries, f, i) && (f > file || (f == file && i > index))
}

/// From `file` on, the first file with a candidate is the one presented, at
/// its first candidate; the run is complete only where no such file is left.
pub proof fn lemma_first_from(entries: Seq<FileIssuesView>, file: int)
    requires
        0 <= file,
    ensures
        match first_from(entries, file) {
            StateView::Presenting { file: f, index, issue } => {
                &&& index == 0
                &&& file <= f
                &&& in_range(entries, f, 0)
                &&& issue == entries[f].issues[0]
                &&& forall|k: int| file <= k < f ==> entries[k].issues.len() == 0
            },
            StateView::Completed => forall|k: int|
                file <= k < entries.len() ==> entries[k].issues.len() == 0,
            _ => false,
        },
    decreases entries.len() - file,
{
    if file < entries.len() && entries[file].issues.len() == 0 {
        lemma_first_from(entries, file + 1);
    }
}

/// After a candidate was handled the next one in order is presented; the
/// run is complete only where none is left.
pub proof fn lemma_following(entries: Seq<FileIssuesView>, file: int, index: int)
    requires
        in_range(entries, file, index),
    ensures
        match following(entries, file, index) {
            StateView::Presenting { file: f, index: i, issue } => {
                &&& in_range(entries, f, i)
                &&& issue == entries[f].issues[i]
                &&& (f == file && i == index + 1) || (f > file && i == 0)
                &&& forall|k: int, j: int|
                    #[trigger] in_range(entries, k, j) && (k > file || (k == file && j > index))
                        ==> (k > f || (k == f && j >= i))
            },
            StateView::Completed => !has_later(entries, file, index),
            _ => false,
        },
{
    if !in_range(entries, file, index + 1) {
        lemma_first_from(entries, file + 1);
    }
}

/// A run begins with the first candidate of the scan, or complete where the
/// scan holds none.
pub proof fn lemma_initial_well_placed(entries: Seq<FileIssuesView>)
    ensures
        well_placed(entries, initial(entries)),
        initial(entries) is Presenting || initial(entries) is Completed,
        initial(entries) is Completed <==> forall|f: int, i: int| !in_range(entries, f, i),
{
    lemma_first_from(entries, 0);
    if initial(entries) is Presenting {
        assert(in_range(entries, initial(entries)->Presenting_file, 0));
    }
}

/// A step never leads to a place where the scan holds no candidate.
pub proof fn lemma_step_well_placed(
    entries: Seq<FileIssuesView>,
    state: StateView,
    event: EventView,
)
    requires
        well_placed(entries, state),
    ensures
        well_placed(entries, transition(entries, state, event).0),
{
    match state {
        StateView::Presenting { file, index, issue } => {
            lemma_following(entries, file, index);
        },
        StateView::Editing { file, index, issue } => {
            lemma_following(entries, file, index);
        },
        StateView::Submitting { file, index, issue } => {
            lemma_following(entries, file, index);
        },
        _ => {},
    }
}

/// Exit ends the run at once, whatever candidates are left.
pub proof fn lemma_exit_aborts(
    entries: Seq<FileIssuesView>,
    file: int,
    index: int,
    issue: IssueView,
)
    ensures
        transition(
            entries,
            StateView::Presenting { file, index, issue },
            EventView::Selected(EXIT as int),
        ) == (StateView::Aborted, Report::Silent),
{
}

/// Once the run is over no event changes anything, and nothing is reported.
pub proof fn lemma_over_stays(entries: Seq<FileIssuesView>, state: StateView, event: EventView)
    requires
        is_over(state),
    ensures
        transition(entries, state, event) == (state, Report::Silent),
{
}

/// Once the run is over it stays so whatever events follow: no candidate is
/// presented, edited or submitted any more.
pub proof fn lemma_run_over_stays(
    entries: Seq<FileIssuesView>,
    state: StateView,
    events: Seq<EventView>,
)
    requires
        is_over(state),
    ensures
        run(entries, state, events) == state,
    decreases events.len(),
{
    if events.len() > 0 {
        lemma_run_over_stays(entries, state, events.drop_first());
    }
}

/// Nothing is handed to the tracker but on the choice to open a candidate, or
/// after an edit that reads back as an issue.
pub proof fn lemma_submission_needs_consent(
    entries: Seq<FileIssuesView>,
    state: StateView,
    event: EventView,
)
    requires
        transition(entries, state, event).0 is Submitting,
        !(state is Submitting),
    ensures
        (state is Presenting && event == EventView::Selected(OPEN as int)) || (state is Editing
            && event is Edited && event->Edited_0 is Some && parse_issue(
            event->Edited_0.unwrap(),
        ) is Some),
{
    match state {
        StateView::Presenting { file, index, issue } => {
            if file + 1 >= 0 {
                lemma_first_from(entries, file + 1);
            }
        },
        StateView::Editing { file, index, issue } => {
            if file + 1 >= 0 {
                lemma_first_from(entries, file + 1);
            }
        },
        _ => {},
    }
}

/// Where the user never chooses to open or to edit a candidate, nothing is
/// handed to the tracker, however the run goes.
pub proof fn lemma_nothing_submitted_without_consent(
    entries: Seq<FileIssuesView>,
    state: StateView,
    events: Seq<EventView>,
)
    requires
        state is Presenting || is_over(state),
        forall|k: int| 0 <= k < events.len() ==> !consents(#[trigger] events[k]),
    ensures
        submitted(entries, state, events) == Seq::<IssueView>::empty(),
        run(entries, state, events) is Presenting || is_over(run(entries, state, events)),
    decreases events.len(),
{
    if events.len() > 0 {
        let next = transition(entries, state, events[0]).0;
        assert(!consents(events[0]));
        if state is Presenting {
            let file = state->Presenting_file;
            if file + 1 >= 0 {
                lemma_first_from(entries, file + 1);
            }
        }
        assert forall|k: int| 0 <= k < events.drop_first().len() implies !consents(
            #[trigger] events.drop_first()[k],
        ) by {
            assert(events.drop_first()[k] == events[k + 1]);
        }
        lemma_nothing_submitted_without_consent(entries, next, events.drop_first());
    }
}

/// Once the run is over, nothing is handed to the tracker any more.
pub proof fn lemma_nothing_submitted_when_over(
    entries: Seq<FileIssuesView>,
    state: StateView,
    events: Seq<EventView>,
)
    requires
        is_over(state),
    ensures
        submitted(entries, state, events) == Seq::<IssueView>::empty(),
    decreases events.len(),
{
    if events.len() > 0 {
        lemma_nothing_submitted_when_over(entries, state, events.drop_first());
    }
}

/// To skip a candidate is to go on to the next one without a submission.
pub proof fn lemma_skip_moves_on(
    entries: Seq<FileIssuesView>,
    file: int,
    index: int,
    issue: IssueView,
)
    ensures
        transition(
            entries,
            StateView::Presenting { file, index, issue },
            EventView::Selected(SKIP as int),
        ) == (following(entries, file, index), Report::Skipped),
        !(following(entries, file, index) is Submitting),
        !(following(entries, file, index) is Editing),
{
    if file + 1 >= 0 {
        lemma_first_from(entries, file + 1);
    }
}

/// A failed submission is reported and the run goes on as after an accepted
/// one: where a candidate is left, it is presented next.
pub proof fn lemma_failure_moves_on(
    entries: Seq<FileIssuesView>,
    file: int,
    index: int,
    issue: IssueView,
)
    requires
        in_range(entries, file, index),
    ensures
        transition(
            entries,
            StateView::Submitting { file, index, issue },
            EventView::Submitted(false),
        ) == (following(entries, file, index), Report::OpenFailed),
        transition(
            entries,
            StateView::Submitting { file, index, issue },
            EventView::Submitted(true),
        ).0 == following(entries, file, index),
        has_later(entries, file, index) ==> following(entries, file, index) is Presenting,
        !(following(entries, file, index) is Aborted),
{
    lemma_following(entries, file, index);
}

/// An edit that does not read back as an issue is reported, the candidate is
/// dropped, and the run goes on.
pub proof fn lemma_bad_edit_moves_on(
    entries: Seq<FileIssuesView>,
    file: int,
    index: int,
    issue: IssueView,
    edited: Option<Seq<char>>,
)
    requires
        edited is Some ==> parse_issue(edited.unwrap()) is None,
    ensures
        transition(
            entries,
            StateView::Editing { file, index, issue },
            EventView::Edited(edited),
        ) == (following(entries, file, index), Report::InvalidFormat),
{
}

/// The state that presents the first candidate of the files from `from` on.
fn first_candidate(map: &ScanResult, from: usize) -> (state: TriageState)
    ensures
        state@ == first_from(map@, from as int),
{
    let n: usize = map.len();
    let mut file: usize = from;
    while file < n
        invariant
            n == map@.len(),
            from <= file,
            first_from(map@, from as int) == first_from(map@, file as int),
        decreases n - file,
    {
        match map.issue_at(file, 0) {
            Some(issue) => {
                return TriageState::Presenting { file, index: 0, issue: issue.clone() };
            },
            None => {},
        }
        file += 1;
    }
    TriageState::Completed
}

/// The state that follows the handling of the candidate at `index` of `file`.
fn next_candidate(map: &ScanResult, file: usize, index: usize) -> (state: TriageState)
    ensures
        state@ == following(map@, file as int, index as int),
{
    if file >= map.len() {
        return TriageState::Completed;
    }
    match map.get(file) {
        Some(entry) => {
            let n: usize = entry.issues.len();
            assert(entry@.issues.len() == n);
            if index < n && index + 1 < n {
                let issue = entry.issues[index + 1].clone();
                TriageState::Presenting { file, index: index + 1, issue }
            } else {
                first_candidate(map, file + 1)
            }
        },
        None => TriageState::Completed,
    }
}

impl TriageState {
    /// The state in which the triage of `map` begins: its first candidate is
    /// presented, or the run is complete at once.
    pub fn start(map: &ScanResult) -> (state: TriageState)
        ensures
            state@ == initial(map@),
    {
        first_candidate(map, 0)
    }

    /// Whether the run is over.
    pub fn is_finished(&self) -> (finished: bool)
        ensures
            finished == is_over(self@),
    {
        match self {
            TriageState::Aborted => true,
            TriageState::Completed => true,
            _ => false,
        }
    }

    /// Takes a step: what `event` makes of this state, and what became of the
    /// candidate at hand.
    pub fn step(self, map: &ScanResult, event: Event) -> (next: (TriageState, Report))
        ensures
            (next.0@, next.1) == transition(map@, self@, event@),
    {
        match (self, event) {
            (TriageState::Presenting { file, index, issue }, Event::Selected(choice)) => {
                if choice == OPEN {
                    (TriageState::Submitting { file, index, issue }, Report::Silent)
                } else if choice == EDIT {
                    (TriageState::Editing { file, index, issue }, Report::Silent)
                } else if choice == EXIT {
                    (TriageState::Aborted, Report::Silent)
                } else {
                    (next_candidate(map, file, index), Report::Skipped)
                }
            },
            (TriageState::Editing { file, index, issue }, Event::Edited(Some(text))) => {
                match Issue::from_string(text) {
                    Some(edited) => (
                        TriageState::Submitting { file, index, issue: edited },
                        Report::Silent,
                    ),
                    None => (next_candidate(map, file, index), Report::InvalidFormat),
                }
            },
            (TriageState::Editing { file, index, issue }, Event::Edited(None)) => {
                (next_candidate(map, file, index), Report::InvalidFormat)
            },
            (TriageState::Submitting { file, index, issue }, Event::Submitted(accepted)) => {
                let report = if accepted {
                    Report::Opened
                } else {
                    Report::OpenFailed
                };
                (next_candidate(map, file, index), report)
            },
            (state, _) => (state, Report::Silent),
        }
    }
}

} // verus!
