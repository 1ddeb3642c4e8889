use shipflow::error::ShipflowError;
use shipflow::task::{
    find_by_id_prefix, find_by_partial_title, parse_tags, resolve_task, tag_matches, Task, TaskFile,
    TaskStatus, SCHEMA_VERSION,
};
use shipflow::time::Timestamp;

fn at(secs: i64) -> Timestamp {
    Timestamp::new(secs, 0).unwrap()
}

fn task(id: &str, title: &str) -> Task {
    Task::with_id(id.to_owned(), title.to_owned(), vec![], None, at(1_700_000_000))
}

#[test]
fn parse_tags_splits_and_trims() {
    assert_eq!(
        parse_tags(Some(" rust, cli ,,tui ")),
        vec!["rust", "cli", "tui"]
    );
}

#[test]
fn tag_matches_is_case_insensitive_and_and_semantics() {
    let tags = vec!["Rust".to_owned(), "CLI".to_owned()];
    assert!(tag_matches(&tags, &["rust".to_owned()]));
    assert!(tag_matches(&tags, &["rust".to_owned(), "cli".to_owned()]));
    assert!(!tag_matches(&tags, &["rust".to_owned(), "web".to_owned()]));
}

#[test]
fn parse_tags_without_input_is_empty() {
    assert!(parse_tags(None).is_empty());
    assert!(parse_tags(Some("")).is_empty());
    assert!(parse_tags(Some(" , ,\t")).is_empty());
}

#[test]
fn parse_tags_keeps_inner_spaces_and_unicode_whitespace_trim() {
    assert_eq!(parse_tags(Some("\u{a0}deep work\u{3000},x")), vec!["deep work", "x"]);
}

#[test]
fn tag_matches_empty_filter_matches_all() {
    assert!(tag_matches(&[], &[]));
    assert!(tag_matches(&["a".to_owned()], &[]));
    assert!(!tag_matches(&[], &["a".to_owned()]));
}

#[test]
fn tag_matches_folds_only_ascii_case() {
    assert!(!tag_matches(&["É".to_owned()], &["é".to_owned()]));
    assert!(tag_matches(&["ÉtÉ".to_owned()], &["Ét\u{c9}".to_owned()]));
}

#[test]
fn new_task_is_open_with_ulid_id() {
    let t = Task::new("Ship it".to_owned(), vec!["rust".to_owned()], Some("n".to_owned()));
    assert_eq!(t.id.len(), 26);
    assert!(t.id.chars().all(|c| "0123456789ABCDEFGHJKMNPQRSTVWXYZ".contains(c)));
    assert_eq!(t.title, "Ship it");
    assert_eq!(t.tags, vec!["rust".to_owned()]);
    assert_eq!(t.note.as_deref(), Some("n"));
    assert_eq!(t.status, TaskStatus::Open);
    assert!(t.completed_at.is_none());
    assert!(t.linked_commit.is_none());
}

#[test]
fn two_new_tasks_have_different_ids() {
    let a = Task::new("a".to_owned(), vec![], None);
    let b = Task::new("b".to_owned(), vec![], None);
    assert_ne!(a.id, b.id);
}

#[test]
fn mark_done_at_sets_status_time_and_link() {
    let mut t = task("01ABC", "x");
    t.mark_done_at(None, at(1_700_000_100));
    assert_eq!(t.status, TaskStatus::Done);
    assert_eq!(t.completed_at.unwrap().secs(), 1_700_000_100);
    assert!(t.linked_commit.is_none());
}

#[test]
fn empty_task_file_has_current_schema() {
    let f = TaskFile::empty();
    assert_eq!(f.version, SCHEMA_VERSION);
    assert!(f.tasks.is_empty());
}

#[test]
fn id_prefix_lookup_finds_unique_match() {
    let tasks = vec![task("01AAA", "one"), task("01BBB", "two")];
    let found = find_by_id_prefix(&tasks, "01B").unwrap();
    assert_eq!(found.title, "two");
}

#[test]
fn id_prefix_lookup_reports_missing_and_ambiguous() {
    let tasks = vec![task("01AAA", "one"), task("01ABB", "two")];
    match find_by_id_prefix(&tasks, "02") {
        Err(ShipflowError::TaskNotFound(q)) => assert_eq!(q, "02"),
        other => panic!("unexpected {:?}", other),
    }
    match find_by_id_prefix(&tasks, "01A") {
        Err(ShipflowError::AmbiguousMatch { query, matches }) => {
            assert_eq!(query, "01A");
            assert_eq!(matches, "  01AAA — one\n  01ABB — two");
        }
        other => panic!("unexpected {:?}", other),
    }
}

#[test]
fn title_lookup_is_case_insensitive() {
    let tasks = vec![task("01AAA", "Fix Parser edge case"), task("01BBB", "Write docs")];
    assert_eq!(find_by_partial_title(&tasks, "PARSER").unwrap().id, "01AAA");
    assert!(matches!(
        find_by_partial_title(&tasks, "zzz"),
        Err(ShipflowError::TaskNotFound(_))
    ));
}

#[test]
fn title_lookup_uses_unicode_lowercase() {
    let tasks = vec![task("01AAA", "ÜBER release")];
    assert_eq!(find_by_partial_title(&tasks, "über").unwrap().id, "01AAA");
}

#[test]
fn resolve_prefers_id_prefix_over_title() {
    let tasks = vec![task("ABC1", "unrelated"), task("XYZ", "abc title")];
    assert_eq!(resolve_task(&tasks, "ABC").unwrap().title, "unrelated");
    assert_eq!(resolve_task(&tasks, "title").unwrap().id, "XYZ");
}

#[test]
fn duplicate_is_equal() {
    let t = Task::with_id(
        "01X".to_owned(),
        "t".to_owned(),
        vec!["a".to_owned()],
        Some("n".to_owned()),
        at(5),
    );
    let d = t.duplicate();
    assert_eq!(d.id, t.id);
    assert_eq!(d.tags, t.tags);
    assert_eq!(d.note, t.note);
}

#[test]
fn tags_written_back_read_the_same() {
    let tags = parse_tags(Some(" rust, cli ,,tui "));
    let written = shipflow::text::join(&tags, ",");
    assert_eq!(written, "rust,cli,tui");
    assert_eq!(parse_tags(Some(&written)), tags);
    assert_eq!(parse_tags(Some(&shipflow::text::join(&vec![], ","))), Vec::<String>::new());
}

#[test]
fn full_id_finds_its_task_among_equal_length_ids() {
    let tasks = vec![task("01AAA", "alpha"), task("01AAB", "beta"), task("01ABA", "gamma")];
    for t in &tasks {
        assert_eq!(resolve_task(&tasks, &t.id).unwrap().id, t.id);
    }
}

#[test]
fn new_task_is_created_after_1970() {
    let t = Task::new("x".to_owned(), vec![], None);
    assert!(t.created_at.secs() > 1_577_836_800);
    assert!(t.created_at.nanos() < 1_000_000_000);
}
