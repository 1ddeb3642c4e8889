use shipflow::report::{compute_stats, render_markdown, render_markdown_at, render_text, shipped_tasks, shipped_tasks_at, ReportPeriod};
use shipflow::task::{LinkedCommit, Task, TaskStatus};
use shipflow::time::Timestamp;
use shipflow::utils::with_color;

fn at(secs: i64) -> Timestamp {
    Timestamp::new(secs, 0).unwrap()
}

fn done_task(id: &str, title: &str, tags: &[&str], completed: i64) -> Task {
    let mut t = Task::with_id(
        id.to_owned(),
        title.to_owned(),
        tags.iter().map(|s| s.to_string()).collect(),
        None,
        at(completed - 100),
    );
    t.mark_done_at(None, at(completed));
    t
}

// 2024-01-10T12:00:00Z
const NOW: i64 = 1_704_888_000;

#[test]
fn report_renders_markdown() {
    let mut t = Task::new("Ship CLI polish".to_owned(), vec!["rust".to_owned()], None);
    t.mark_done(None);
    let tasks = vec![t];
    let shipped = shipped_tasks(&tasks, ReportPeriod::Week);
    assert_eq!(shipped.len(), 1);
    let stats = compute_stats(&shipped);
    let md = render_markdown(&shipped, &stats, ReportPeriod::Week);
    assert!(md.contains("# What I shipped"));
    assert!(md.contains("Ship CLI polish"));
}

#[test]
fn period_labels_and_starts() {
    assert_eq!(ReportPeriod::Today.label(), "today");
    assert_eq!(ReportPeriod::Week.label(), "this week");
    assert_eq!(ReportPeriod::Month.label(), "this month");
    assert_eq!(ReportPeriod::All.label(), "all time");
    let now = at(NOW);
    assert!(ReportPeriod::All.start(now).is_none());
    assert_eq!(ReportPeriod::Today.start(now).unwrap().secs(), 1_704_844_800);
    assert_eq!(ReportPeriod::Week.start(now).unwrap().secs(), NOW - 7 * 86400);
    assert_eq!(ReportPeriod::Month.start(now).unwrap().secs(), NOW - 30 * 86400);
    // Before 1970 the day still starts at midnight.
    assert_eq!(ReportPeriod::Today.start(at(-1)).unwrap().secs(), -86400);
}

#[test]
fn leap_second_moves_forward_before_going_back() {
    let leap = Timestamp::new(1_483_228_799, 1_500_000_000).unwrap();
    let start = ReportPeriod::Week.start(leap).unwrap();
    assert_eq!(start.secs(), 1_483_228_800 - 7 * 86400);
    assert_eq!(start.nanos(), 500_000_000);
}

#[test]
fn shipped_tasks_are_done_in_period_newest_first() {
    let mut open = Task::with_id("O".to_owned(), "open".to_owned(), vec![], None, at(NOW - 10));
    open.status = TaskStatus::Open;
    let tasks = vec![
        done_task("A", "old", &[], NOW - 10 * 86400),
        done_task("B", "mid", &[], NOW - 2 * 86400),
        done_task("C", "new", &[], NOW - 3600),
        open,
        done_task("F", "future", &[], NOW + 3600),
    ];
    let week = shipped_tasks_at(&tasks, ReportPeriod::Week, at(NOW));
    let ids: Vec<&str> = week.iter().map(|t| t.id.as_str()).collect();
    assert_eq!(ids, vec!["C", "B"]);
    let all = shipped_tasks_at(&tasks, ReportPeriod::All, at(NOW));
    let ids: Vec<&str> = all.iter().map(|t| t.id.as_str()).collect();
    assert_eq!(ids, vec!["F", "C", "B", "A"]);
    let today = shipped_tasks_at(&tasks, ReportPeriod::Today, at(NOW));
    assert_eq!(today.len(), 1);
}

#[test]
fn stats_count_tags_and_links() {
    let mut linked = done_task("L", "linked", &["rust"], NOW);
    linked.linked_commit = Some(LinkedCommit { sha: "abc".to_owned(), message: "m".to_owned(), branch: None });
    let tasks = vec![
        linked,
        done_task("1", "a", &["rust", "cli"], NOW),
        done_task("2", "b", &["web", "cli", "b", "c", "d", "e"], NOW),
    ];
    let refs: Vec<&Task> = tasks.iter().collect();
    let stats = compute_stats(&refs);
    assert_eq!(stats.shipped, 3);
    assert_eq!(stats.linked_commits, 1);
    assert_eq!(
        stats.top_tags,
        vec![
            ("cli".to_owned(), 2),
            ("rust".to_owned(), 2),
            ("b".to_owned(), 1),
            ("c".to_owned(), 1),
            ("d".to_owned(), 1),
        ]
    );
}

#[test]
fn stats_of_nothing() {
    let stats = compute_stats(&[]);
    assert_eq!(stats.shipped, 0);
    assert_eq!(stats.linked_commits, 0);
    assert!(stats.top_tags.is_empty());
}

#[test]
fn text_report_without_color() {
    let tasks = vec![done_task("01HZZZZZZZZZ", "Ship it", &["rust"], NOW)];
    let refs: Vec<&Task> = tasks.iter().collect();
    let stats = compute_stats(&refs);
    let out = render_text(&refs, &stats, ReportPeriod::Week, with_color(false));
    assert!(out.starts_with("What I shipped — this week\n1 tasks · 0 linked commits\n\nFocus: rust (1)\n\n"));
    assert!(out.contains("01HZZZZZ"));
    assert!(!out.contains("01HZZZZZZ"));
    assert!(out.contains("Ship it"));
    assert!(out.ends_with('\n'));
    let empty = render_text(&[], &compute_stats(&[]), ReportPeriod::Today, with_color(false));
    assert_eq!(empty, "What I shipped — today\n0 tasks · 0 linked commits\n\nNo shipped tasks in this period.\n");
}

#[test]
fn text_report_with_color() {
    let empty = render_text(&[], &compute_stats(&[]), ReportPeriod::All, with_color(true));
    assert_eq!(
        empty,
        "\u{1b}[1m\u{1b}[33mWhat I shipped — all time\u{1b}[39m\u{1b}[0m\n\u{1b}[2m0 tasks · 0 linked commits\u{1b}[0m\n\n\u{1b}[2mNo shipped tasks in this period.\u{1b}[0m\n"
    );
}

#[test]
fn markdown_report_exact() {
    let mut t = done_task("X", "Ship it", &["rust", "cli"], NOW);
    t.note = Some("went well".to_owned());
    t.linked_commit = Some(LinkedCommit { sha: "a1b2c3d".to_owned(), message: "Fix bug".to_owned(), branch: None });
    let tasks = vec![t];
    let refs: Vec<&Task> = tasks.iter().collect();
    let stats = compute_stats(&refs);
    let md = render_markdown_at(&refs, &stats, ReportPeriod::Week, at(NOW));
    assert_eq!(
        md,
        "# What I shipped — this week\n\n_Generated 2024-01-10 12:00 UTC_\n\n## Summary\n\n- **Shipped:** 1\n- **Linked commits:** 1\n- **Focus areas:** `cli` (1), `rust` (1)\n\n## Shipped\n\n### Ship it (2024-01-10)\n\n**Tags:** `rust` `cli`\n\ngo well\n\n**Commit:** `a1b2c3d` — Fix bug\n\n".replace("go well", "went well")
    );
    let none = render_markdown_at(&[], &compute_stats(&[]), ReportPeriod::All, at(0));
    assert_eq!(
        none,
        "# What I shipped — all time\n\n_Generated 1970-01-01 00:00 UTC_\n\n## Summary\n\n- **Shipped:** 0\n- **Linked commits:** 0\n\n## Shipped\n\n_No shipped tasks in this period._\n"
    );
}

#[test]
fn shipped_tasks_as_of_now() {
    let tasks = vec![done_task("01AAAAAAAA", "old", &[], 1)];
    for period in [ReportPeriod::Today, ReportPeriod::Week, ReportPeriod::Month, ReportPeriod::All] {
        let shipped = shipped_tasks(&tasks, period);
        // Completed in 1970: only the unbounded period covers it.
        assert_eq!(shipped.len(), if period == ReportPeriod::All { 1 } else { 0 });
    }
}
