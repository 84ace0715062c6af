use todo_issue::cli::init;

#[test]
fn asked_pattern_is_used() {
    let args = init(Some("*.rs"), "tok".to_string());
    assert_eq!(args.get_pattern().as_str(), "*.rs");
    assert!(args.get_pattern().matches("src/main.rs"));
    assert!(!args.get_pattern().matches("main.py"));
    assert_eq!(args.get_token(), "tok");
}

#[test]
fn without_a_pattern_every_file_is_scanned() {
    let args = init(None, String::new());
    assert_eq!(args.get_pattern().as_str(), "*");
    assert!(args.get_pattern().matches("a/b/c.txt"));
    assert!(args.get_pattern().matches(""));
    assert_eq!(args.get_token(), "");
}

#[test]
fn what_is_no_pattern_falls_back_to_every_file() {
    for bad in ["a**b", "***", "[", "[!", "a/**b"] {
        let args = init(Some(bad), "t".to_string());
        assert_eq!(args.get_pattern().as_str(), "*");
        assert!(args.get_pattern().matches("anything.at/all"));
    }
}
