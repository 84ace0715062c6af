use todo_issue::issue::Issue;

fn issue(title: &str, body: &str) -> Issue {
    Issue::new(title.to_string(), body.to_string()).unwrap()
}

#[test]
fn an_issue_needs_a_title() {
    assert!(Issue::new(String::new(), "body".to_string()).is_none());
    let made = issue("t", "");
    assert_eq!(made.get_title(), "t");
    assert_eq!(made.get_body(), "");
}

#[test]
fn text_form_is_title_then_body() {
    assert_eq!(issue("add tests", "Found it").to_string(), "add tests\nFound it");
    assert_eq!(issue("t", "").to_string(), "t\n");
    assert_eq!(issue("t", "a\nb").to_string(), "t\na\nb");
}

#[test]
fn text_form_reads_back() {
    let before = issue("add tests", "Found a TODO comment on line 5 of file a.py");
    let after = Issue::from_string(before.to_string()).unwrap();
    assert_eq!(after.get_title(), "add tests");
    assert_eq!(after.get_body(), "Found a TODO comment on line 5 of file a.py");
}

#[test]
fn edited_text_is_read_without_the_whitespace_around_its_parts() {
    let read = Issue::from_string("  new title \t\r\n\n  first line\n second line \n\n".to_string()).unwrap();
    assert_eq!(read.get_title(), "new title");
    assert_eq!(read.get_body(), "first line\n second line");
}

#[test]
fn text_without_title_or_body_is_no_issue() {
    assert!(Issue::from_string(String::new()).is_none());
    assert!(Issue::from_string("only a title".to_string()).is_none());
    assert!(Issue::from_string("only a title\n".to_string()).is_none());
    assert!(Issue::from_string("title\n   \n\t".to_string()).is_none());
    assert!(Issue::from_string("\nbody".to_string()).is_none());
    assert!(Issue::from_string("   \nbody".to_string()).is_none());
    assert!(Issue::from_string("\n".to_string()).is_none());
}

#[test]
fn a_copy_holds_the_same() {
    let first = issue("t", "b");
    let second = first.clone();
    assert_eq!(second.get_title(), "t");
    assert_eq!(second.get_body(), "b");
}
