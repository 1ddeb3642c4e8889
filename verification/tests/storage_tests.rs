use shipflow::commands::{board_initial, board_key, BoardKey};
use shipflow::error::ShipflowError;
use shipflow::storage::{
    count_by_status, filter_tasks, migrate, resolve_storage, path_join_text, PathStyle, StorageMode, TaskStore,
};
use shipflow::task::{LinkedCommit, Task, TaskFile, TaskStatus};
use shipflow::time::Timestamp;

fn at(secs: i64) -> Timestamp {
    Timestamp::new(secs, 0).unwrap()
}

fn store_at(path: &str) -> TaskStore {
    let ctx = resolve_storage(false, Some(path.to_owned()), None, PathStyle::Unix).unwrap();
    TaskStore::open(&ctx, TaskFile::empty()).unwrap()
}

#[test]
fn uses_repo_storage_inside_git_repo() {
    let ctx = resolve_storage(false, Some("/tmp/repo".to_owned()), Some("/home/u/.config/shipflow".to_owned()), PathStyle::Unix).unwrap();
    assert!(ctx.tasks_path.ends_with(".shipflow/tasks.json"));
    assert_eq!(ctx.mode.label(), "repo");

    let mut store = TaskStore::open(&ctx, TaskFile::empty()).unwrap();
    store.add(Task::new("Repo task".to_owned(), vec![], None));
    assert_eq!(store.path(), "/tmp/repo/.shipflow/tasks.json");
    assert_eq!(store.tasks().len(), 1);
}

#[test]
fn uses_global_storage_outside_git_repo() {
    let ctx = resolve_storage(false, None, Some("/home/u/.config/shipflow".to_owned()), PathStyle::Unix).unwrap();
    assert_eq!(ctx.mode.label(), "global");
    assert_eq!(ctx.tasks_path, "/home/u/.config/shipflow/tasks.json");
}

#[test]
fn global_flag_overrides_repo_storage() {
    let ctx = resolve_storage(true, Some("/tmp/repo".to_owned()), Some("/cfg".to_owned()), PathStyle::Unix).unwrap();
    assert_eq!(ctx.mode.label(), "global");
    assert_eq!(ctx.mode, StorageMode::Global("/cfg/tasks.json".to_owned()));
}

#[test]
fn global_storage_needs_config_dir() {
    match resolve_storage(true, Some("/tmp/repo".to_owned()), None, PathStyle::Unix) {
        Err(ShipflowError::Storage { path, message }) => {
            assert_eq!(path, "~/.config/shipflow");
            assert_eq!(message, "could not resolve config directory");
        }
        other => panic!("unexpected {:?}", other),
    }
    // Inside a repository the configuration directory is not needed.
    assert!(resolve_storage(false, Some("/r".to_owned()), None, PathStyle::Unix).is_ok());
}

#[test]
fn path_join_adds_one_separator() {
    assert_eq!(path_join_text("/a", "b", PathStyle::Unix), "/a/b");
    assert_eq!(path_join_text("/a/", "b", PathStyle::Unix), "/a/b");
    assert_eq!(path_join_text("", "b", PathStyle::Unix), "b");
}

#[test]
fn round_trip_task_persistence() {
    let mut store = store_at("/tmp/repo");
    let created = store.add(Task::new(
        "Persist me".to_owned(),
        vec!["rust".to_owned()],
        Some("note".to_owned()),
    ));
    let found = store.find(&created.id).unwrap();
    assert_eq!(found.title, "Persist me");
    assert_eq!(found.tags, vec!["rust".to_owned()]);
    assert_eq!(found.note.as_deref(), Some("note"));
    let saved = store.file_for_save();
    assert!(saved.tasks.iter().any(|t| t.title == "Persist me"));
}

#[test]
fn done_marks_task_by_partial_title() {
    let mut store = store_at("/tmp/repo");
    store.add(Task::new("Fix parser edge case".to_owned(), vec![], None));
    let done = store.mark_done("parser", None).unwrap();
    assert_eq!(done.title, "Fix parser edge case");
    assert_eq!(done.status, TaskStatus::Done);
    let listed = filter_tasks(store.tasks(), Some(TaskStatus::Done), &[]);
    assert_eq!(listed.len(), 1);
    assert_eq!(listed[0].title, "Fix parser edge case");
}

#[test]
fn done_errors_on_missing_task() {
    let mut store = store_at("/tmp/repo");
    let err = store.mark_done("missing", None).unwrap_err();
    assert!(err.message().contains("task not found"));
    assert_eq!(err.exit_code(), 1);
}

#[test]
fn mark_done_leaves_other_tasks_and_links_commit() {
    let mut store = store_at("/tmp/repo");
    store.add(Task::with_id("01AAA".to_owned(), "first".to_owned(), vec![], None, at(1)));
    store.add(Task::with_id("01BBB".to_owned(), "second".to_owned(), vec![], None, at(2)));
    let link = LinkedCommit { sha: "a1b2c3d".to_owned(), message: "Fix".to_owned(), branch: Some("main".to_owned()) };
    let done = store.mark_done_at("01B", Some(link), at(10)).unwrap();
    assert_eq!(done.linked_commit.as_ref().unwrap().sha, "a1b2c3d");
    assert_eq!(done.completed_at.unwrap().secs(), 10);
    assert_eq!(store.tasks()[0].status, TaskStatus::Open);
    assert_eq!(store.tasks()[1].status, TaskStatus::Done);
    assert_eq!(count_by_status(store.tasks()), (1, 1));
}

#[test]
fn list_shows_added_tasks() {
    let mut store = store_at("/tmp/repo");
    store.add(Task::new("First task".to_owned(), vec!["a".to_owned()], None));
    store.add(Task::new("Second task".to_owned(), vec![], None));
    let open = filter_tasks(store.tasks(), Some(TaskStatus::Open), &[]);
    let titles: Vec<&str> = open.iter().map(|t| t.title.as_str()).collect();
    assert_eq!(titles, vec!["First task", "Second task"]);
}

#[test]
fn list_filters_done_tasks() {
    let mut store = store_at("/tmp/repo");
    store.add(Task::new("Todo item".to_owned(), vec![], None));
    store.add(Task::new("Done item".to_owned(), vec![], None));
    store.mark_done("Done item", None).unwrap();
    let done = filter_tasks(store.tasks(), Some(TaskStatus::Done), &[]);
    assert_eq!(done.len(), 1);
    assert_eq!(done[0].title, "Done item");
    assert!(done.iter().all(|t| t.title != "Todo item"));
}

#[test]
fn filter_by_tags_uses_and_semantics() {
    let tasks = vec![
        Task::with_id("1".to_owned(), "a".to_owned(), vec!["rust".to_owned(), "cli".to_owned()], None, at(1)),
        Task::with_id("2".to_owned(), "b".to_owned(), vec!["rust".to_owned()], None, at(2)),
    ];
    let both = filter_tasks(&tasks, None, &["RUST".to_owned(), "cli".to_owned()]);
    assert_eq!(both.len(), 1);
    assert_eq!(both[0].id, "1");
    assert_eq!(filter_tasks(&tasks, None, &[]).len(), 2);
}

#[test]
fn migrate_upgrades_version_zero_and_refuses_newer() {
    let mut f = TaskFile { version: 0, tasks: vec![] };
    assert!(migrate(&mut f).is_ok());
    assert_eq!(f.version, 1);
    let mut g = TaskFile { version: 7, tasks: vec![] };
    match migrate(&mut g) {
        Err(ShipflowError::Storage { path, message }) => {
            assert_eq!(path, "tasks.json");
            assert_eq!(message, "unsupported schema version 7 (max supported: 1)");
        }
        other => panic!("unexpected {:?}", other),
    }
    let ctx = resolve_storage(false, Some("/r".to_owned()), None, PathStyle::Unix).unwrap();
    assert!(TaskStore::open(&ctx, TaskFile { version: 2, tasks: vec![] }).is_err());
}

#[test]
fn saved_file_is_ordered_by_creation_stably() {
    let mut store = store_at("/tmp/repo");
    store.add(Task::with_id("c".to_owned(), "late".to_owned(), vec![], None, at(30)));
    store.add(Task::with_id("a".to_owned(), "early".to_owned(), vec![], None, at(10)));
    store.add(Task::with_id("b1".to_owned(), "tie1".to_owned(), vec![], None, at(20)));
    store.add(Task::with_id("b2".to_owned(), "tie2".to_owned(), vec![], None, at(20)));
    let saved = store.file_for_save();
    let ids: Vec<&str> = saved.tasks.iter().map(|t| t.id.as_str()).collect();
    assert_eq!(ids, vec!["a", "b1", "b2", "c"]);
    // The store itself keeps insertion order.
    assert_eq!(store.tasks()[0].id, "c");
}

#[test]
fn counts_add_up() {
    let mut tasks = vec![
        Task::with_id("1".to_owned(), "a".to_owned(), vec![], None, at(1)),
        Task::with_id("2".to_owned(), "b".to_owned(), vec![], None, at(2)),
        Task::with_id("3".to_owned(), "c".to_owned(), vec![], None, at(3)),
    ];
    tasks[1].mark_done_at(None, at(4));
    let (open, done) = count_by_status(&tasks);
    assert_eq!((open, done), (2, 1));
    assert_eq!(open + done, tasks.len());
}

#[test]
fn completing_moves_one_task_between_counts() {
    let mut store = store_at("/tmp/repo");
    store.add(Task::with_id("01AAA".to_owned(), "first".to_owned(), vec![], None, at(1)));
    store.add(Task::with_id("01BBB".to_owned(), "second".to_owned(), vec![], None, at(2)));
    assert_eq!(count_by_status(store.tasks()), (2, 0));
    store.mark_done_at("01A", None, at(5)).unwrap();
    assert_eq!(count_by_status(store.tasks()), (1, 1));
    // Completing an already completed task changes neither count.
    store.mark_done_at("01A", None, at(6)).unwrap();
    assert_eq!(count_by_status(store.tasks()), (1, 1));
    assert_eq!(store.tasks()[0].completed_at.unwrap().secs(), 6);
}

#[test]
fn windows_paths_join_with_backslash() {
    assert_eq!(path_join_text("C:\\Users\\u", "x", PathStyle::Windows), "C:\\Users\\u\\x");
    assert_eq!(path_join_text("C:/repo", ".shipflow", PathStyle::Windows), "C:/repo\\.shipflow");
    assert_eq!(path_join_text("C:\\", "x", PathStyle::Windows), "C:\\x");
    assert_eq!(path_join_text("C:/", "x", PathStyle::Windows), "C:/x");
    assert_eq!(path_join_text("C:", "x", PathStyle::Windows), "C:x");
    // On Unix a backslash is an ordinary character.
    assert_eq!(path_join_text("a\\", "x", PathStyle::Unix), "a\\/x");
    let ctx = resolve_storage(false, Some("C:/work/repo".to_owned()), None, PathStyle::Windows).unwrap();
    assert_eq!(ctx.tasks_path, "C:/work/repo\\.shipflow\\tasks.json");
    let ctx = resolve_storage(true, None, Some("C:\\Users\\u\\AppData\\Roaming\\shipflow\\config".to_owned()), PathStyle::Windows).unwrap();
    assert_eq!(ctx.tasks_path, "C:\\Users\\u\\AppData\\Roaming\\shipflow\\config\\tasks.json");
}

#[test]
fn filtering_twice_changes_nothing() {
    let mut tasks = vec![
        Task::with_id("1".to_owned(), "a".to_owned(), vec!["rust".to_owned()], None, at(1)),
        Task::with_id("2".to_owned(), "b".to_owned(), vec!["Rust".to_owned(), "cli".to_owned()], None, at(2)),
        Task::with_id("3".to_owned(), "c".to_owned(), vec![], None, at(3)),
    ];
    tasks[1].mark_done_at(None, at(4));
    let tags = vec!["rust".to_owned()];
    let once: Vec<Task> = filter_tasks(&tasks, Some(TaskStatus::Open), &tags).iter().map(|t| t.duplicate()).collect();
    let twice = filter_tasks(&once, Some(TaskStatus::Open), &tags);
    let a: Vec<&str> = once.iter().map(|t| t.id.as_str()).collect();
    let b: Vec<&str> = twice.iter().map(|t| t.id.as_str()).collect();
    assert_eq!(a, vec!["1"]);
    assert_eq!(a, b);
}

#[test]
fn board_keys_complete_only_open_tasks() {
    let mut store = store_at("/tmp/repo");
    store.add(Task::with_id("01AAA".to_owned(), "first".to_owned(), vec![], None, at(1)));
    store.add(Task::with_id("01AAB".to_owned(), "second".to_owned(), vec![], None, at(2)));
    store.add(Task::with_id("01AAC".to_owned(), "third".to_owned(), vec![], None, at(3)));
    let s = board_initial();
    // Down, then `d`: the second open task is completed.
    let (s, quit, done) = board_key(&mut store, s, BoardKey::Down, at(10));
    assert!(!quit && !done);
    let (s, _, done) = board_key(&mut store, s, BoardKey::MarkDone, at(11));
    assert!(done);
    assert_eq!(store.tasks()[1].status, TaskStatus::Done);
    assert_eq!(store.tasks()[1].completed_at.unwrap().secs(), 11);
    assert!(store.tasks()[1].linked_commit.is_none());
    // The cursor is pulled back into the two open tasks; `d` completes the third.
    let (s, _, done) = board_key(&mut store, s, BoardKey::MarkDone, at(12));
    assert!(done);
    assert_eq!(store.tasks()[2].status, TaskStatus::Done);
    // In the done column `d` does nothing; other keys change no task.
    let (s, _, _) = board_key(&mut store, s, BoardKey::Tab, at(13));
    let (s, _, done) = board_key(&mut store, s, BoardKey::MarkDone, at(14));
    assert!(!done);
    let (_, quit, _) = board_key(&mut store, s, BoardKey::Quit, at(15));
    assert!(quit);
    let ids: Vec<&str> = store.tasks().iter().map(|t| t.id.as_str()).collect();
    assert_eq!(ids, vec!["01AAA", "01AAB", "01AAC"]);
    assert_eq!(store.tasks()[0].status, TaskStatus::Open);
    assert_eq!(count_by_status(store.tasks()), (1, 2));
}
