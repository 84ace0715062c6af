use glob::Pattern;
use todo_issue::parse::{populate_map, KnownTitles, SourceFile};
use todo_issue::scan::ScanResult;
use todo_issue::issue::Issue;
use todo_issue::triage::{
    selections, Event, Report, TriageState, ALL_DONE, EDIT, EXIT, INVALID_FORMAT, OPEN, QUESTION,
    SKIP,
};

fn scan(files: &[(&str, &[&str])]) -> ScanResult {
    let sources: Vec<SourceFile> = files
        .iter()
        .map(|(path, lines)| SourceFile {
            path: path.to_string(),
            lines: Some(lines.iter().map(|l| l.to_string()).collect()),
        })
        .collect();
    populate_map(&sources, &KnownTitles::new(), &Pattern::new("*").unwrap())
}

fn presenting(state: &TriageState) -> (usize, usize) {
    match state {
        TriageState::Presenting { file, index, .. } => (*file, *index),
        _ => panic!("not presenting"),
    }
}

fn presented(state: &TriageState) -> String {
    match state {
        TriageState::Presenting { issue, .. } => issue.get_title().to_string(),
        _ => panic!("not presenting"),
    }
}

fn some_issue() -> Issue {
    Issue::new("t".to_string(), "b".to_string()).unwrap()
}

fn submitting(state: &TriageState) -> (String, String) {
    match state {
        TriageState::Submitting { issue, .. } => {
            (issue.get_title().to_string(), issue.get_body().to_string())
        }
        _ => panic!("not submitting"),
    }
}

#[test]
fn choices_are_numbered_in_the_order_shown() {
    assert_eq!((OPEN, EDIT, SKIP, EXIT), (0, 1, 2, 3));
    assert_eq!(selections(), ["Open Issue", "Edit Issue", "Skip", "Exit"]);
    assert_eq!(selections()[OPEN], "Open Issue");
    assert_eq!(selections()[EXIT], "Exit");
    assert_eq!(QUESTION, "What would you like to do?");
    assert_eq!(INVALID_FORMAT, "Invalid format. Failed to create issue.");
    assert_eq!(ALL_DONE, "All done!");
}

#[test]
fn skip_completes_without_submission() {
    let map = scan(&[("a.py", &["", "", "", "", "# TODO: add tests"])]);
    let state = TriageState::start(&map);
    assert_eq!(presenting(&state), (0, 0));
    assert_eq!(presented(&state), "add tests");
    assert!(!state.is_finished());
    let (state, report) = state.step(&map, Event::Selected(SKIP));
    assert!(matches!(state, TriageState::Completed));
    assert_eq!(report, Report::Skipped);
    assert!(state.is_finished());
}

#[test]
fn exit_on_the_first_of_two_never_presents_the_second() {
    let map = scan(&[("a.py", &["# TODO: one", "# TODO: two"])]);
    let state = TriageState::start(&map);
    assert_eq!(presenting(&state), (0, 0));
    let (state, report) = state.step(&map, Event::Selected(EXIT));
    assert!(matches!(state, TriageState::Aborted));
    assert_eq!(report, Report::Silent);
    assert!(state.is_finished());
    let (state, _) = state.step(&map, Event::Selected(OPEN));
    assert!(matches!(state, TriageState::Aborted));
    let (state, _) = state.step(&map, Event::Submitted(true));
    assert!(matches!(state, TriageState::Aborted));
    let (state, report) = state.step(&map, Event::Edited(Some("t\nb".to_string())));
    assert!(matches!(state, TriageState::Aborted));
    assert_eq!(report, Report::Silent);
}

#[test]
fn exit_across_files_abandons_all() {
    let map = scan(&[("a.py", &["# TODO: one"]), ("b.py", &["# TODO: two"])]);
    let state = TriageState::start(&map);
    let (state, _) = state.step(&map, Event::Selected(SKIP));
    assert_eq!(presenting(&state), (1, 0));
    let (state, _) = state.step(&map, Event::Selected(EXIT));
    assert!(matches!(state, TriageState::Aborted));
}

#[test]
fn open_submits_the_issue_as_it_is() {
    let map = scan(&[("a.py", &["", "", "", "", "# TODO: add tests"])]);
    let state = TriageState::start(&map);
    let (state, report) = state.step(&map, Event::Selected(OPEN));
    assert_eq!(report, Report::Silent);
    assert_eq!(
        submitting(&state),
        ("add tests".to_string(), "Found a TODO comment on line 5 of file a.py".to_string())
    );
    let (state, report) = state.step(&map, Event::Submitted(true));
    assert_eq!(report, Report::Opened);
    assert!(matches!(state, TriageState::Completed));
}

#[test]
fn failed_submission_is_reported_and_the_next_issue_is_presented() {
    let map = scan(&[("a.py", &["# TODO: one", "# TODO: two"]), ("b.py", &["# TODO: three"])]);
    let state = TriageState::start(&map);
    let (state, _) = state.step(&map, Event::Selected(OPEN));
    assert_eq!(submitting(&state).0, "one");
    let (state, report) = state.step(&map, Event::Submitted(false));
    assert_eq!(report, Report::OpenFailed);
    assert_eq!(presenting(&state), (0, 1));
    assert_eq!(presented(&state), "two");
    let (state, _) = state.step(&map, Event::Selected(OPEN));
    assert_eq!(submitting(&state).0, "two");
    let (state, report) = state.step(&map, Event::Submitted(false));
    assert_eq!(report, Report::OpenFailed);
    assert_eq!(presenting(&state), (1, 0));
    let (state, _) = state.step(&map, Event::Selected(OPEN));
    assert_eq!(submitting(&state).0, "three");
    let (state, report) = state.step(&map, Event::Submitted(true));
    assert_eq!(report, Report::Opened);
    assert!(matches!(state, TriageState::Completed));
}

#[test]
fn edit_submits_what_the_editor_returned() {
    let map = scan(&[("a.py", &["# TODO: one", "# TODO: two"])]);
    let state = TriageState::start(&map);
    let (state, report) = state.step(&map, Event::Selected(EDIT));
    assert_eq!(report, Report::Silent);
    match &state {
        TriageState::Editing { file, index, issue } => {
            assert_eq!((*file, *index), (0, 0));
            assert_eq!(issue.to_string(), "one\nFound a TODO comment on line 1 of file a.py");
        }
        _ => panic!("not editing"),
    }
    let (state, report) = state.step(&map, Event::Edited(Some("better title\nbetter body\n".to_string())));
    assert_eq!(report, Report::Silent);
    assert_eq!(submitting(&state), ("better title".to_string(), "better body".to_string()));
    let (state, report) = state.step(&map, Event::Submitted(true));
    assert_eq!(report, Report::Opened);
    assert_eq!(presenting(&state), (0, 1));
}

#[test]
fn edit_that_is_no_issue_is_reported_and_dropped() {
    let map = scan(&[("a.py", &["# TODO: one", "# TODO: two"])]);
    let state = TriageState::start(&map);
    let (state, _) = state.step(&map, Event::Selected(EDIT));
    let (state, report) = state.step(&map, Event::Edited(Some("no body".to_string())));
    assert_eq!(report, Report::InvalidFormat);
    assert_eq!(presenting(&state), (0, 1));
    let (state, _) = state.step(&map, Event::Selected(EDIT));
    let (state, report) = state.step(&map, Event::Edited(None));
    assert_eq!(report, Report::InvalidFormat);
    assert!(matches!(state, TriageState::Completed));
}

#[test]
fn files_without_candidates_are_passed_over() {
    let map = scan(&[
        ("none.py", &["x = 1"]),
        ("a.py", &["# TODO: one"]),
        ("empty.py", &[]),
        ("also_none.py", &["y = 2"]),
        ("b.py", &["z = 3", "# TODO: two"]),
        ("last.py", &[""]),
    ]);
    let state = TriageState::start(&map);
    assert_eq!(presenting(&state), (1, 0));
    let (state, _) = state.step(&map, Event::Selected(SKIP));
    assert_eq!(presenting(&state), (4, 0));
    let (state, _) = state.step(&map, Event::Selected(SKIP));
    assert!(matches!(state, TriageState::Completed));
}

#[test]
fn a_scan_without_candidates_is_complete_at_once() {
    let map = scan(&[("none.py", &["x = 1"])]);
    assert!(matches!(TriageState::start(&map), TriageState::Completed));
    let nothing = scan(&[]);
    let state = TriageState::start(&nothing);
    assert!(matches!(state, TriageState::Completed));
    let (state, report) = state.step(&nothing, Event::Selected(OPEN));
    assert!(matches!(state, TriageState::Completed));
    assert_eq!(report, Report::Silent);
}

#[test]
fn an_unknown_choice_passes_over_the_candidate() {
    let map = scan(&[("a.py", &["# TODO: one", "# TODO: two"])]);
    let state = TriageState::start(&map);
    let (state, report) = state.step(&map, Event::Selected(4));
    assert_eq!(report, Report::Skipped);
    assert_eq!(presenting(&state), (0, 1));
}

#[test]
fn an_event_out_of_turn_changes_nothing() {
    let map = scan(&[("a.py", &["# TODO: one"])]);
    let state = TriageState::start(&map);
    let (state, report) = state.step(&map, Event::Submitted(true));
    assert_eq!(report, Report::Silent);
    assert_eq!(presenting(&state), (0, 0));
    let (state, _) = state.step(&map, Event::Edited(None));
    assert_eq!(presenting(&state), (0, 0));
    let (state, _) = state.step(&map, Event::Selected(OPEN));
    let (state, report) = state.step(&map, Event::Selected(EXIT));
    assert_eq!(report, Report::Silent);
    assert_eq!(submitting(&state).0, "one");
}

#[test]
fn a_state_outside_the_scan_moves_on() {
    let map = scan(&[("a.py", &["# TODO: one"]), ("b.py", &["# TODO: two"])]);
    let (state, _) = (TriageState::Presenting { file: 0, index: 7, issue: some_issue() })
        .step(&map, Event::Selected(SKIP));
    assert_eq!(presenting(&state), (1, 0));
    assert_eq!(presented(&state), "two");
    let (state, _) = (TriageState::Submitting { file: 9, index: 0, issue: some_issue() })
        .step(&map, Event::Submitted(true));
    assert!(matches!(state, TriageState::Completed));
    let (state, _) = (TriageState::Editing { file: 1, index: 0, issue: some_issue() })
        .step(&map, Event::Edited(None));
    assert!(matches!(state, TriageState::Completed));
}
