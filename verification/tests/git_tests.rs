use shipflow::git::{detect, linked_commit_from_sha, parse_branch, parse_commit_log, parse_commit_message, parse_repo_root};

#[test]
fn repo_root_is_trimmed_output() {
    assert_eq!(parse_repo_root(true, "/home/u/proj\n"), Some("/home/u/proj".to_owned()));
    assert_eq!(parse_repo_root(true, "  \n"), None);
    assert_eq!(parse_repo_root(false, "/x\n"), None);
}

#[test]
fn branch_ignores_detached_head() {
    assert_eq!(parse_branch(true, "main\n"), Some("main".to_owned()));
    assert_eq!(parse_branch(true, "HEAD\n"), None);
    assert_eq!(parse_branch(false, "main"), None);
}

#[test]
fn commit_message_is_trimmed() {
    assert_eq!(parse_commit_message(true, " Fix it \n"), Some("Fix it".to_owned()));
    assert_eq!(parse_commit_message(true, ""), None);
}

#[test]
fn log_lines_split_at_first_bar() {
    let commits = parse_commit_log(true, "a1b2c3d|Fix | thing\r\nnopipe\ne4f5|Add\n");
    let pairs: Vec<(&str, &str)> = commits.iter().map(|c| (c.sha.as_str(), c.message.as_str())).collect();
    assert_eq!(pairs, vec![("a1b2c3d", "Fix | thing"), ("e4f5", "Add")]);
    assert!(parse_commit_log(false, "a|b").is_empty());
    assert!(parse_commit_log(true, "").is_empty());
    let last = parse_commit_log(true, "x|y\r");
    assert_eq!(last[0].message, "y\r");
}

#[test]
fn detect_keeps_branch_only_inside_repo() {
    let ctx = detect(Some("/r".to_owned()), Some("main".to_owned()));
    assert!(ctx.is_repo);
    assert_eq!(ctx.branch.as_deref(), Some("main"));
    let out = detect(None, Some("main".to_owned()));
    assert!(!out.is_repo);
    assert!(out.repo_root.is_none());
    assert!(out.branch.is_none());
}

#[test]
fn linked_commit_needs_valid_sha() {
    assert!(linked_commit_from_sha("abc", Some("main"), false, None).is_none());
    let c = linked_commit_from_sha("abc", Some("main"), true, None).unwrap();
    assert_eq!(c.message, "(no message)");
    assert_eq!(c.branch.as_deref(), Some("main"));
    let d = linked_commit_from_sha("abc", None, true, Some("Fix".to_owned())).unwrap();
    assert_eq!(d.sha, "abc");
    assert_eq!(d.message, "Fix");
    assert!(d.branch.is_none());
}
