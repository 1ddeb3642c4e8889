use shipflow::cli::{report_format, report_period, status_filter, ListStatus, ReportFormatArg, ReportPeriodArg};
use shipflow::commands::{
    added_message, board_clamp, board_initial, board_step, check_given_commit, commit_menu_text, done_message,
    menu_needed, parse_selection, plan_link, recent_commits_text, render_list, status_git_text, status_head_text, BoardAction, BoardKey, LinkPlan,
};
use shipflow::error::ShipflowError;
use shipflow::git::{detect, CommitSummary};
use shipflow::report::{ReportFormat, ReportPeriod};
use shipflow::task::{LinkedCommit, Task, TaskStatus};
use shipflow::text::{decimal_text, join, short_id, short_id_ok, to_lowercase, trim_text};
use shipflow::time::{format_date, format_minute, now, Timestamp};
use shipflow::utils::{color_enabled, with_color};

fn at(secs: i64) -> Timestamp {
    Timestamp::new(secs, 0).unwrap()
}

#[test]
fn colors_match_owo_colors_sequences() {
    let c = with_color(true);
    assert_eq!(c.success("ok"), "\u{1b}[1m\u{1b}[32mok\u{1b}[39m\u{1b}[0m");
    assert_eq!(c.error("bad"), "\u{1b}[1m\u{1b}[31mbad\u{1b}[39m\u{1b}[0m");
    assert_eq!(c.info("i"), "\u{1b}[36mi\u{1b}[39m");
    assert_eq!(c.highlight("h"), "\u{1b}[1m\u{1b}[33mh\u{1b}[39m\u{1b}[0m");
    assert_eq!(c.dim("d"), "\u{1b}[2md\u{1b}[0m");
    assert_eq!(c.id("x"), "\u{1b}[34mx\u{1b}[39m");
    let p = with_color(false);
    assert_eq!(p.success("ok"), "ok");
    assert_eq!(p.id("x"), "x");
}

#[test]
fn color_follows_environment_and_terminal() {
    assert!(color_enabled(false, None, true));
    assert!(!color_enabled(true, None, true));
    assert!(!color_enabled(false, Some("0".to_owned()), true));
    assert!(color_enabled(false, Some("1".to_owned()), true));
    assert!(!color_enabled(false, None, false));
}

#[test]
fn error_messages_and_exit_codes() {
    let e = ShipflowError::TaskNotFound("q".to_owned());
    assert_eq!(e.message(), "task not found: q");
    assert_eq!(e.exit_code(), 1);
    let e = ShipflowError::AmbiguousMatch { query: "q".to_owned(), matches: "  a — b".to_owned() };
    assert_eq!(e.message(), "ambiguous match — multiple tasks match 'q':\n  a — b");
    assert_eq!(e.exit_code(), 1);
    let e = ShipflowError::Storage { path: "/p".to_owned(), message: "m".to_owned() };
    assert_eq!(e.message(), "storage error at /p: m");
    assert_eq!(e.exit_code(), 3);
    let e = ShipflowError::Git("g".to_owned());
    assert_eq!(e.message(), "git error: g");
    assert_eq!(e.exit_code(), 1);
    let e = ShipflowError::InvalidCommit("zz".to_owned());
    assert_eq!(e.message(), "invalid commit: zz");
    assert_eq!(e.exit_code(), 1);
    let e = ShipflowError::Io(std::io::Error::new(std::io::ErrorKind::Other, "disk"));
    assert_eq!(e.message(), "disk");
    assert_eq!(e.exit_code(), 3);
    let serde_err = serde_json::from_str::<u32>("x").unwrap_err();
    let text = serde_err.to_string();
    let e = ShipflowError::Serde(serde_err);
    assert_eq!(e.message(), text);
    assert_eq!(e.exit_code(), 3);
}

#[test]
fn cli_choices_map_to_filters() {
    assert_eq!(status_filter(ListStatus::Open), Some(TaskStatus::Open));
    assert_eq!(status_filter(ListStatus::Done), Some(TaskStatus::Done));
    assert_eq!(status_filter(ListStatus::All), None);
    assert_eq!(report_period(ReportPeriodArg::Today), ReportPeriod::Today);
    assert_eq!(report_period(ReportPeriodArg::Month), ReportPeriod::Month);
    assert_eq!(report_format(ReportFormatArg::Md), ReportFormat::Markdown);
    assert_eq!(report_format(ReportFormatArg::Text), ReportFormat::Text);
}

#[test]
fn add_creates_task_in_repo_mode() {
    let t = Task::new("Ship auth refactor".to_owned(), vec!["rust".to_owned(), "auth".to_owned()], None);
    let msg = added_message(&t, with_color(false));
    assert!(msg.contains("Added"));
    assert!(msg.contains("Ship auth refactor"));
    assert_eq!(msg, format!("Added {} — Ship auth refactor", &t.id[..8]));
}

#[test]
fn done_message_shows_link() {
    let mut t = Task::with_id("01ABCDEFGH".to_owned(), "T".to_owned(), vec![], None, at(1));
    t.mark_done_at(Some(LinkedCommit { sha: "abc".to_owned(), message: "Fix".to_owned(), branch: None }), at(2));
    assert_eq!(done_message(&t, with_color(false)), "Done 01ABCDEF — T\n  linked: abc Fix");
}

#[test]
fn list_table_and_empty_notice() {
    let a = Task::with_id("01AAAAAAAAAA".to_owned(), "First task".to_owned(), vec!["a".to_owned()], None, at(1_704_888_000));
    let list = render_list(&vec![&a], with_color(false));
    assert!(list.contains("First task"));
    assert!(list.contains("01AAAAAA"));
    assert!(list.contains("2024-01-10"));
    assert!(list.contains("open"));
    assert!(list.contains("Created"));
    assert_eq!(render_list(&vec![], with_color(false)), "No tasks found.");
}

#[test]
fn status_shows_counts() {
    let head = status_head_text("/r/.shipflow/tasks.json", "repo", 1, 0, with_color(false));
    assert!(head.contains("tasks:"));
    assert!(head.contains("open"));
    assert_eq!(head, "shipflow status\nstorage: /r/.shipflow/tasks.json (repo)\ntasks: 1 open · 0 done\n");
    let ctx = detect(Some("/r".to_owned()), None);
    let commits = vec![CommitSummary { sha: "abc".to_owned(), message: "Fix".to_owned() }];
    assert_eq!(
        status_git_text(true, &ctx, &commits, with_color(false)),
        "git: (detached) @ /r\nrecent commits:\n  abc Fix\n"
    );
    assert_eq!(status_git_text(false, &ctx, &commits, with_color(false)), "git: not available\n");
    let outside = detect(None, None);
    assert_eq!(status_git_text(true, &outside, &vec![], with_color(false)), "git: not in a repository\n");
}

#[test]
fn link_plan_and_commit_check() {
    assert_eq!(plan_link(true, true, Some("a".to_owned()), true), LinkPlan::NoLink);
    assert_eq!(plan_link(false, false, Some("a".to_owned()), true), LinkPlan::NoLink);
    assert_eq!(plan_link(false, true, Some("a".to_owned()), false), LinkPlan::CheckSha("a".to_owned()));
    assert_eq!(plan_link(false, true, None, true), LinkPlan::PromptRecent);
    assert_eq!(plan_link(false, true, None, false), LinkPlan::NoLink);
    assert!(check_given_commit("abc", true).is_ok());
    match check_given_commit("zzz", false) {
        Err(ShipflowError::InvalidCommit(s)) => assert_eq!(s, "zzz"),
        other => panic!("unexpected {:?}", other),
    }
}

#[test]
fn commit_menu_lists_numbered_commits() {
    let commits = vec![
        CommitSummary { sha: "a1".to_owned(), message: "one".to_owned() },
        CommitSummary { sha: "b2".to_owned(), message: "two".to_owned() },
    ];
    assert_eq!(
        commit_menu_text(&commits, with_color(false)),
        "Recent commits:\n  0) Skip\n  1) a1 one\n  2) b2 two\n"
    );
}

#[test]
fn selection_parsing() {
    assert_eq!(parse_selection("", 5).unwrap(), None);
    assert_eq!(parse_selection("0", 5).unwrap(), None);
    assert_eq!(parse_selection("00", 5).unwrap(), None);
    assert_eq!(parse_selection("1", 5).unwrap(), Some(0));
    assert_eq!(parse_selection("+5", 5).unwrap(), Some(4));
    assert_eq!(parse_selection("6", 5).unwrap(), None);
    assert_eq!(parse_selection("99999999999999999999999", 5).is_err(), true);
    match parse_selection("x", 5) {
        Err(ShipflowError::InvalidCommit(s)) => assert_eq!(s, "x"),
        other => panic!("unexpected {:?}", other),
    }
    assert!(parse_selection("+", 5).is_err());
    assert!(parse_selection("-1", 5).is_err());
}

#[test]
fn board_navigation_stays_in_columns() {
    let s = board_clamp(board_initial(), 2, 0);
    let (s, a) = board_step(s, BoardKey::Down, 2, 0);
    assert_eq!((s.selected_open, a), (1, BoardAction::Continue));
    let (s, _) = board_step(s, BoardKey::Down, 2, 0);
    assert_eq!(s.selected_open, 1);
    let (s2, a) = board_step(s, BoardKey::MarkDone, 2, 0);
    assert_eq!(a, BoardAction::MarkDone(1));
    let s3 = board_clamp(s2, 1, 1);
    assert_eq!(s3.selected_open, 0);
    let (s4, _) = board_step(s3, BoardKey::Tab, 1, 1);
    assert!(!s4.focus_open);
    let (_, a) = board_step(s4, BoardKey::MarkDone, 1, 1);
    assert_eq!(a, BoardAction::Continue);
    let (s5, _) = board_step(s4, BoardKey::Up, 1, 1);
    assert_eq!(s5.selected_done, 0);
    let (_, a) = board_step(s5, BoardKey::Quit, 1, 1);
    assert_eq!(a, BoardAction::Quit);
    let (_, a) = board_step(board_initial(), BoardKey::MarkDone, 0, 0);
    assert_eq!(a, BoardAction::Continue);
}

#[test]
fn text_helpers() {
    assert_eq!(trim_text("\t a b \n"), "a b");
    assert_eq!(decimal_text(0), "0");
    assert_eq!(decimal_text(1234567), "1234567");
    assert_eq!(join(&vec!["a".to_owned(), "b".to_owned()], ", "), "a, b");
    assert_eq!(join(&vec![], ", "), "");
    assert_eq!(to_lowercase("ÀB"), "àb");
    assert_eq!(short_id("0123456789"), "01234567");
    assert_eq!(short_id("abc"), "abc");
    assert!(short_id_ok("ABCDEFGHIJ"));
    assert!(!short_id_ok("abcdefgé"));
}

#[test]
fn dates_format_in_utc() {
    assert_eq!(format_date(&at(1_704_888_000)), "2024-01-10");
    assert_eq!(format_minute(&at(1_704_888_059)), "2024-01-10 12:00 UTC");
    assert_eq!(format_date(&at(-1)), "1969-12-31");
}

#[test]
fn timestamps_follow_chrono_range() {
    assert!(Timestamp::new(0, 0).is_some());
    assert!(Timestamp::new(0, 1_000_000_000).is_none());
    assert!(Timestamp::new(59, 1_000_000_000).is_some());
    assert!(Timestamp::new(59, 2_000_000_000).is_none());
    assert!(Timestamp::new(8_210_266_876_799, 0).is_some());
    assert!(Timestamp::new(8_210_266_876_800, 0).is_none());
    assert!(Timestamp::new(-8_334_601_315_200, 0).is_some());
    assert!(Timestamp::new(-8_334_601_315_201, 0).is_none());
    assert!(at(1).lt(&at(2)));
    assert!(at(2).le(&at(2)));
    assert!(!at(3).le(&at(2)));
}

#[test]
fn clock_reads_after_1970_outside_leap_seconds() {
    let t = now();
    // 2020-01-01T00:00:00Z: any clock this runs on reads later than that.
    assert!(t.secs() > 1_577_836_800);
    assert!(t.nanos() < 1_000_000_000);
}

#[test]
fn status_prints_git_line_then_recent_commits() {
    let ctx = detect(Some("/r".to_owned()), Some("main".to_owned()));
    let commits = vec![
        CommitSummary { sha: "abc".to_owned(), message: "Fix".to_owned() },
        CommitSummary { sha: "def".to_owned(), message: "Add".to_owned() },
    ];
    let line = status_git_text(true, &ctx, &vec![], with_color(false));
    assert_eq!(line, "git: main @ /r\n");
    let block = recent_commits_text(&commits, with_color(false));
    assert_eq!(block, "recent commits:\n  abc Fix\n  def Add\n");
    assert_eq!(line + &block, status_git_text(true, &ctx, &commits, with_color(false)));
    assert_eq!(recent_commits_text(&vec![], with_color(true)), "");
}

#[test]
fn menu_only_with_recent_commits() {
    assert!(!menu_needed(&vec![]));
    assert!(menu_needed(&vec![CommitSummary { sha: "a".to_owned(), message: "m".to_owned() }]));
}
