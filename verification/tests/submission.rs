use todo_issue::issue::Issue;
use todo_issue::request::{success_message, Reply, Request, SubmissionError};

fn issue() -> Issue {
    Issue::new("add tests".to_string(), "Found a TODO comment on line 5 of file a.py".to_string())
        .unwrap()
}

#[test]
fn request_is_addressed_to_the_repository() {
    let request = Request::new("owner/repo".to_string(), "s3".to_string());
    let submission = request.open_issue(&issue());
    assert_eq!(submission.url, "https://api.github.com/repos/owner/repo/issues");
    assert_eq!(submission.authorization, "token s3");
    assert_eq!(
        submission.payload,
        vec![
            ("title".to_string(), "add tests".to_string()),
            ("body".to_string(), "Found a TODO comment on line 5 of file a.py".to_string()),
        ]
    );
}

#[test]
fn every_status_of_success_is_success() {
    for status in [200u16, 201, 204, 299] {
        assert!(Request::settle(&issue(), Reply::Status(status)).is_ok());
    }
}

#[test]
fn other_statuses_are_failures_that_name_issue_and_cause() {
    for status in [0u16, 100, 199, 300, 401, 404, 422, 500, 65535] {
        let error = Request::settle(&issue(), Reply::Status(status)).unwrap_err();
        assert_eq!(error.title, "add tests");
        assert_eq!(error.cause, format!("unexpected status {}", status));
    }
}

#[test]
fn a_failed_exchange_is_a_failure_with_its_cause() {
    let error =
        Request::settle(&issue(), Reply::Failed("connection refused".to_string())).unwrap_err();
    assert_eq!(error.title, "add tests");
    assert_eq!(error.cause, "connection refused");
    assert_eq!(
        error.to_string(),
        "Failed to open issue add tests. Received error connection refused"
    );
}

#[test]
fn messages_are_exact() {
    assert_eq!(success_message(&issue()), "Successfully created issue with title: add tests");
    let error = SubmissionError { title: "t".to_string(), cause: "c".to_string() };
    assert_eq!(error.to_string(), "Failed to open issue t. Received error c");
}
