use todo_issue::command::{get_remote_name, get_tracked_files};

#[test]
fn tracked_files_are_the_lines_that_are_not_empty() {
    assert_eq!(get_tracked_files("a.rs\nsrc/b.rs\n"), vec!["a.rs", "src/b.rs"]);
    assert_eq!(get_tracked_files("a.rs\n\n\nb.rs"), vec!["a.rs", "b.rs"]);
    assert_eq!(get_tracked_files("\n\na\n"), vec!["a"]);
    assert_eq!(get_tracked_files("one"), vec!["one"]);
    assert!(get_tracked_files("").is_empty());
    assert!(get_tracked_files("\n\n").is_empty());
    assert_eq!(get_tracked_files(" \nwith space.txt\n"), vec![" ", "with space.txt"]);
    assert_eq!(get_tracked_files("\u{e9}t\u{e9}.rs\nb"), vec!["\u{e9}t\u{e9}.rs", "b"]);
}

#[test]
fn remote_name_is_owner_and_repository() {
    assert_eq!(
        get_remote_name("https://github.com/owner/repo.git\n"),
        Some("owner/repo".to_string())
    );
    assert_eq!(get_remote_name("https://github.com/owner/repo\n"), Some("owner/repo".to_string()));
    assert_eq!(get_remote_name("https://github.com/owner/repo"), Some("owner/repo".to_string()));
    assert_eq!(
        get_remote_name("  ssh://git@github.com/owner/repo.git  "),
        Some("owner/repo".to_string())
    );
}

#[test]
fn only_a_trailing_git_suffix_is_stripped() {
    assert_eq!(
        get_remote_name("https://github.com/owner/my.github.io.git\n"),
        Some("owner/my.github.io".to_string())
    );
    assert_eq!(
        get_remote_name("https://github.com/owner/a.gitb"),
        Some("owner/a.gitb".to_string())
    );
    assert_eq!(get_remote_name("https://github.com/.git"), Some(String::new()));
    assert_eq!(get_remote_name("https://github.com/git"), Some("git".to_string()));
    assert_eq!(get_remote_name("https://github.com/"), Some(String::new()));
}

#[test]
fn an_address_without_the_host_names_nothing() {
    assert_eq!(get_remote_name(""), None);
    assert_eq!(get_remote_name("https://example.org/owner/repo.git"), None);
    assert_eq!(get_remote_name("git@github.com:owner/repo.git"), None);
}
