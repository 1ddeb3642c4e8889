//! What each command decides and shows: the confirmation lines of `add` and `done`,
//! the `list` table, the `status` overview, how `done` links a commit, and the
//! navigation of the `board`.

use vstd::prelude::*;

use crate::error::{Result, ShipflowError};
use crate::git::{CommitSummary, GitContext};
use crate::report;
use crate::storage::{self, TaskStore};
use crate::table;
use crate::task::{self, Task, TaskStatus, TaskView};
use crate::text;
use crate::time::{self, Timestamp};
use crate::utils::ColorMode;

verus! {

/// `<verb> <short id> — <title>`, id and title colored.
pub open spec fn task_line(verb: Seq<char>, t: TaskView, color: ColorMode) -> Seq<char> {
    verb + color.id_spec(text::short_id_of(t.id)) + " — "@ + color.highlight_spec(t.title)
}

fn task_line_text(verb: &str, t: &Task, color: ColorMode) -> (r: String)
    requires
        text::id_sliceable(t.id@),
    ensures
        r@ == task_line(verb@, t@, color),
{
    let short = text::short_id(t.id.as_str());
    let id = color.id(short.as_str());
    let title = color.highlight(t.title.as_str());
    let mut out = verb.to_owned();
    out.append(id.as_str());
    out.append(" — ");
    out.append(title.as_str());
    out
}

/// The confirmation of `add`: `Added <id> — <title>`.
pub fn added_message(created: &Task, color: ColorMode) -> (r: String)
    requires
        text::id_sliceable(created.id@),
    ensures
        r@ == task_line("Added "@, created@, color),
{
    task_line_text("Added ", created, color)
}

/// The confirmation of `done`: `Done <id> — <title>`, then the linked commit on a
/// second line when there is one.
pub open spec fn done_text(t: TaskView, color: ColorMode) -> Seq<char> {
    task_line("Done "@, t, color) + match t.linked_commit {
        Some(c) => "\n  linked: "@ + c.sha + " "@ + c.message,
        None => Seq::empty(),
    }
}

pub fn done_message(done: &Task, color: ColorMode) -> (r: String)
    requires
        text::id_sliceable(done.id@),
    ensures
        r@ == done_text(done@, color),
{
    let mut out = task_line_text("Done ", done, color);
    match &done.linked_commit {
        Some(c) => {
            out.append("\n  linked: ");
            out.append(c.sha.as_str());
            out.append(" ");
            out.append(c.message.as_str());
        },
        None => {},
    }
    out
}

/// A task's status in the listing.
pub open spec fn status_word(s: TaskStatus) -> Seq<char> {
    match s {
        TaskStatus::Open => "open"@,
        TaskStatus::Done => "done"@,
    }
}

/// A task's row in the listing: short id, status, title, tags, creation date.
pub open spec fn list_row(t: TaskView) -> Seq<Seq<char>> {
    seq![
        text::short_id_of(t.id),
        status_word(t.status),
        t.title,
        report::tags_cell(t.tags),
        time::spec_utc_format(t.created_at.secs_spec(), t.created_at.nanos_spec(), "%Y-%m-%d"@),
    ]
}

pub open spec fn list_header() -> Seq<Seq<char>> {
    seq!["ID"@, "Status"@, "Title"@, "Tags"@, "Created"@]
}

/// What `list` prints (before its final newline): a dimmed notice without tasks,
/// otherwise the table of the tasks.
pub open spec fn list_text(ts: Seq<TaskView>, color: ColorMode) -> Seq<char> {
    if ts.len() == 0 {
        color.dim_spec("No tasks found."@)
    } else {
        table::spec_table_text(list_header(), ts.map_values(|t: TaskView| list_row(t)))
    }
}

fn tags_cell_of(tags: &Vec<String>) -> (r: String)
    ensures
        r@ == report::tags_cell(tags.deep_view()),
{
    if tags.len() == 0 {
        String::from_str("-")
    } else {
        let r = text::join(tags, ", ");
        assert(text::views(tags@) =~= tags.deep_view());
        r
    }
}

/// The listing of the (already filtered) tasks.
pub fn render_list(tasks: &Vec<&Task>, color: ColorMode) -> (r: String)
    requires
        report::ids_sliceable(task::ref_views(tasks@)),
    ensures
        r@ == list_text(task::ref_views(tasks@), color),
{
    if tasks.len() == 0 {
        return color.dim("No tasks found.");
    }
    let ghost ts = task::ref_views(tasks@);
    let header = vec![
        String::from_str("ID"),
        String::from_str("Status"),
        String::from_str("Title"),
        String::from_str("Tags"),
        String::from_str("Created"),
    ];
    assert(header.deep_view() =~= list_header());
    let mut rows: Vec<Vec<String>> = Vec::new();
    let mut i: usize = 0;
    while i < tasks.len()
        invariant
            ts == task::ref_views(tasks@),
            report::ids_sliceable(ts),
            i <= tasks@.len(),
            rows@.len() == i,
            forall|k: int| 0 <= k < i ==> (#[trigger] rows@[k]).deep_view() == list_row(ts[k]),
        decreases tasks@.len() - i,
    {
        let t = tasks[i];
        assert(ts[i as int] == t@);
        assert(text::id_sliceable(ts[i as int].id));
        let status = match t.status {
            TaskStatus::Open => String::from_str("open"),
            TaskStatus::Done => String::from_str("done"),
        };
        let mut row: Vec<String> = Vec::new();
        row.push(text::short_id(t.id.as_str()));
        row.push(status);
        row.push(t.title.clone());
        row.push(tags_cell_of(&t.tags));
        row.push(time::format_date(&t.created_at));
        assert(row.deep_view() =~= list_row(t@));
        rows.push(row);
        i += 1;
    }
    assert(rows.deep_view() =~= ts.map_values(|t: TaskView| list_row(t)));
    table::render_table(&header, &rows)
}

/// The first lines of `status`: title, storage path and mode, task counts.
pub open spec fn status_head(path: Seq<char>, mode: Seq<char>, open: nat, done: nat, color: ColorMode) -> Seq<char> {
    color.highlight_spec("shipflow status"@) + "\n"@ + color.dim_spec("storage: "@ + path + " ("@ + mode + ")"@)
        + "\n"@ + "tasks: "@ + text::decimal(open) + " open · "@ + text::decimal(done) + " done"@ + "\n"@
}

pub fn status_head_text(path: &str, mode: &str, open: usize, done: usize, color: ColorMode) -> (r: String)
    ensures
        r@ == status_head(path@, mode@, open as nat, done as nat, color),
{
    let mut out = color.highlight("shipflow status");
    out.append("\n");
    let mut storage = String::from_str("storage: ");
    storage.append(path);
    storage.append(" (");
    storage.append(mode);
    storage.append(")");
    let dimmed = color.dim(storage.as_str());
    out.append(dimmed.as_str());
    out.append("\n");
    out.append("tasks: ");
    let o = text::decimal_text(open);
    out.append(o.as_str());
    out.append(" open · ");
    let d = text::decimal_text(done);
    out.append(d.as_str());
    out.append(" done");
    out.append("\n");
    out
}

/// The lines listing recent commits, two spaces, hash and subject each.
pub open spec fn commit_lines(cs: Seq<(Seq<char>, Seq<char>)>) -> Seq<char>
    decreases cs.len(),
{
    if cs.len() == 0 {
        Seq::empty()
    } else {
        commit_lines(cs.drop_last()) + "  "@ + cs.last().0 + " "@ + cs.last().1 + "\n"@
    }
}

/// The block of recent commits under the git line of `status`: a heading and one line
/// per commit, or nothing when there are none.
pub open spec fn recent_block(commits: Seq<(Seq<char>, Seq<char>)>, color: ColorMode) -> Seq<char> {
    if commits.len() > 0 {
        color.info_spec("recent commits:"@) + "\n"@ + commit_lines(commits)
    } else {
        Seq::empty()
    }
}

/// The git lines of `status`.
pub open spec fn status_git(git_available: bool, is_repo: bool, root: Option<Seq<char>>, branch: Option<Seq<char>>, commits: Seq<(Seq<char>, Seq<char>)>, color: ColorMode) -> Seq<char> {
    if !git_available {
        color.dim_spec("git: not available"@) + "\n"@
    } else if is_repo {
        "git: "@ + (match branch {
            Some(b) => b,
            None => "(detached)"@,
        }) + " @ "@ + (match root {
            Some(r) => r,
            None => Seq::empty(),
        }) + "\n"@ + if root is Some {
            recent_block(commits, color)
        } else {
            Seq::empty()
        }
    } else {
        color.dim_spec("git: not in a repository"@) + "\n"@
    }
}

/// The recent commits shown by `status` under its git line (nothing without commits).
pub fn recent_commits_text(commits: &Vec<CommitSummary>, color: ColorMode) -> (r: String)
    ensures
        r@ == recent_block(crate::git::commit_views(commits@), color),
{
    if commits.len() == 0 {
        return String::new();
    }
    let mut out = color.info("recent commits:");
    out.append("\n");
    let ghost base = out@;
    let ghost cv = crate::git::commit_views(commits@);
    let mut i: usize = 0;
    assert(cv.take(0) =~= Seq::<(Seq<char>, Seq<char>)>::empty());
    while i < commits.len()
        invariant
            cv == crate::git::commit_views(commits@),
            i <= commits@.len(),
            out@ == base + commit_lines(cv.take(i as int)),
        decreases commits@.len() - i,
    {
        out.append("  ");
        out.append(commits[i].sha.as_str());
        out.append(" ");
        out.append(commits[i].message.as_str());
        out.append("\n");
        proof {
            assert(cv.take(i + 1).drop_last() =~= cv.take(i as int));
            assert(cv.take(i + 1).last() == (commits@[i as int].sha@, commits@[i as int].message@));
            assert(out@ =~= base + commit_lines(cv.take(i + 1)));
        }
        i += 1;
    }
    assert(cv.take(commits@.len() as int) =~= cv);
    out
}

/// The git lines of `status`: whether git runs, the branch and top level of the
/// repository, and the recent commits.
pub fn status_git_text(git_available: bool, ctx: &GitContext, commits: &Vec<CommitSummary>, color: ColorMode) -> (r: String)
    ensures
        r@ == status_git(git_available, ctx.is_repo, ctx.repo_root.deep_view(), ctx.branch.deep_view(),
            crate::git::commit_views(commits@), color),
{
    if !git_available {
        let mut out = color.dim("git: not available");
        out.append("\n");
        return out;
    }
    if !ctx.is_repo {
        let mut out = color.dim("git: not in a repository");
        out.append("\n");
        return out;
    }
    let mut out = String::from_str("git: ");
    match &ctx.branch {
        Some(b) => out.append(b.as_str()),
        None => out.append("(detached)"),
    }
    out.append(" @ ");
    match &ctx.repo_root {
        Some(r) => out.append(r.as_str()),
        None => {},
    }
    out.append("\n");
    if ctx.repo_root.is_some() {
        let block = recent_commits_text(commits, color);
        out.append(block.as_str());
    }
    out
}

/// What `done` does about a commit link, before asking git anything.
#[derive(Debug, Clone, PartialEq, Eq)]
pub enum LinkPlan {
    /// Link nothing.
    NoLink,
    /// Check and link the commit named with `--commit`.
    CheckSha(String),
    /// Offer the recent commits in an interactive prompt.
    PromptRecent,
}

/// `--no-link` or no repository: nothing; a commit named on the command line is
/// checked; otherwise, on a terminal, the recent commits are offered.
pub fn plan_link(no_link: bool, in_repo: bool, commit_flag: Option<String>, interactive: bool) -> (r: LinkPlan)
    ensures
        (no_link || !in_repo) ==> r == LinkPlan::NoLink,
        (!no_link && in_repo && commit_flag is Some) ==> (r matches LinkPlan::CheckSha(s) && s@ == commit_flag->0@),
        (!no_link && in_repo && commit_flag is None) ==> r == if interactive {
            LinkPlan::PromptRecent
        } else {
            LinkPlan::NoLink
        },
{
    if no_link || !in_repo {
        return LinkPlan::NoLink;
    }
    match commit_flag {
        Some(sha) => LinkPlan::CheckSha(sha),
        None => if interactive {
            LinkPlan::PromptRecent
        } else {
            LinkPlan::NoLink
        },
    }
}

/// A commit named with `--commit` must exist: otherwise the command fails with
/// `InvalidCommit`.
pub fn check_given_commit(sha: &str, valid: bool) -> (r: Result<()>)
    ensures
        valid <==> r is Ok,
        !valid ==> (r matches Err(ShipflowError::InvalidCommit(s)) && s@ == sha@),
{
    if valid {
        Ok(())
    } else {
        Err(ShipflowError::InvalidCommit(sha.to_owned()))
    }
}

/// Whether `done` shows the commit menu: only when there are recent commits to offer;
/// with none, nothing is linked.
pub fn menu_needed(commits: &Vec<CommitSummary>) -> (r: bool)
    ensures
        r == (commits@.len() > 0),
{
    commits.len() > 0
}

/// The menu `done` shows: a heading, the skip choice, and one numbered line per commit.
pub open spec fn menu_lines(cs: Seq<(Seq<char>, Seq<char>)>) -> Seq<char>
    decreases cs.len(),
{
    if cs.len() == 0 {
        Seq::empty()
    } else {
        menu_lines(cs.drop_last()) + "  "@ + text::decimal(cs.len()) + ") "@ + cs.last().0 + " "@ + cs.last().1 + "\n"@
    }
}

pub open spec fn commit_menu(cs: Seq<(Seq<char>, Seq<char>)>, color: ColorMode) -> Seq<char> {
    color.info_spec("Recent commits:"@) + "\n"@ + color.dim_spec("  0) Skip"@) + "\n"@ + menu_lines(cs)
}

pub fn commit_menu_text(commits: &Vec<CommitSummary>, color: ColorMode) -> (r: String)
    ensures
        r@ == commit_menu(crate::git::commit_views(commits@), color),
{
    let mut out = color.info("Recent commits:");
    out.append("\n");
    let skip = color.dim("  0) Skip");
    out.append(skip.as_str());
    out.append("\n");
    let ghost base = out@;
    let ghost cv = crate::git::commit_views(commits@);
    let mut i: usize = 0;
    assert(cv.take(0) =~= Seq::<(Seq<char>, Seq<char>)>::empty());
    while i < commits.len()
        invariant
            cv == crate::git::commit_views(commits@),
            i <= commits@.len(),
            out@ == base + menu_lines(cv.take(i as int)),
        decreases commits@.len() - i,
    {
        out.append("  ");
        let n = text::decimal_text(i + 1);
        out.append(n.as_str());
        out.append(") ");
        out.append(commits[i].sha.as_str());
        out.append(" ");
        out.append(commits[i].message.as_str());
        out.append("\n");
        proof {
            assert(cv.take(i + 1).drop_last() =~= cv.take(i as int));
            assert(cv.take(i + 1).last() == (commits@[i as int].sha@, commits@[i as int].message@));
            assert(cv.take(i + 1).len() == i + 1);
            assert(out@ =~= base + menu_lines(cv.take(i + 1)));
        }
        i += 1;
    }
    assert(cv.take(commits@.len() as int) =~= cv);
    out
}

/// Whether `c` is an ASCII decimal digit.
pub open spec fn is_digit(c: char) -> bool {
    '0' <= c && c <= '9'
}

/// `s` without one leading `+`.
pub open spec fn sign_stripped(s: Seq<char>) -> Seq<char> {
    if s.len() > 0 && s[0] == '+' {
        s.drop_first()
    } else {
        s
    }
}

/// Whether every character of `s` is a decimal digit.
pub open spec fn all_digits(s: Seq<char>) -> bool {
    forall|k: int| 0 <= k < s.len() ==> is_digit(#[trigger] s[k])
}

/// The value of a run of decimal digits.
pub open spec fn digits_value(s: Seq<char>) -> nat
    decreases s.len(),
{
    if s.len() == 0 {
        0
    } else {
        digits_value(s.drop_last()) * 10 + ((s.last() as u32) - 48) as nat
    }
}

/// What `str::parse::<usize>` accepts: an optional `+`, then at least one decimal digit
/// and nothing else, of a value that fits.
pub open spec fn parse_usize(s: Seq<char>) -> Option<nat> {
    let digits = sign_stripped(s);
    if digits.len() > 0 && all_digits(digits) && digits_value(digits) <= usize::MAX {
        Some(digits_value(digits))
    } else {
        None
    }
}

proof fn lemma_digits_value_monotone(s: Seq<char>, i: int)
    requires
        0 <= i <= s.len(),
        forall|k: int| 0 <= k < s.len() ==> is_digit(#[trigger] s[k]),
    ensures
        digits_value(s.take(i)) <= digits_value(s),
    decreases s.len() - i,
{
    if i < s.len() {
        lemma_digits_value_monotone(s, i + 1);
        assert(s.take(i + 1).drop_last() =~= s.take(i));
        assert(s.take(i + 1).last() == s[i]);
        assert(digits_value(s.take(i + 1)) >= digits_value(s.take(i)) * 10);
    } else {
        assert(s.take(i) =~= s);
    }
}

/// `s.parse::<usize>()`, as an option.
pub fn parse_usize_text(s: &str) -> (r: Option<usize>)
    ensures
        r matches Some(v) ==> parse_usize(s@) == Some(v as nat),
        r is None ==> parse_usize(s@) is None,
{
    let chars = text::chars_of(s);
    let n = chars.len();
    let start: usize = if n > 0 && chars[0] == '+' { 1 } else { 0 };
    let ghost digits = sign_stripped(s@);
    assert(digits =~= s@.skip(start as int));
    if start == n {
        return None;
    }
    let mut value: usize = 0;
    let mut i: usize = start;
    while i < n
        invariant
            chars@ == s@,
            n == s@.len(),
            start <= i <= n,
            digits == s@.skip(start as int),
            digits == sign_stripped(s@),
            forall|k: int| 0 <= k < i - start ==> is_digit(#[trigger] digits[k]),
            value == digits_value(digits.take(i - start)),
        decreases n - i,
    {
        let c = chars[i];
        assert(digits[i - start] == c);
        if !('0' <= c && c <= '9') {
            assert(!is_digit(digits[i - start]));
            return None;
        }
        let d: usize = (c as u32 - 48) as usize;
        proof {
            assert(digits.take(i - start + 1).drop_last() =~= digits.take(i - start));
            assert(digits.take(i - start + 1).last() == c);
        }
        match value.checked_mul(10) {
            Some(m) => match m.checked_add(d) {
                Some(v) => value = v,
                None => {
                    proof { lemma_overflow_is_none(s@, digits, i - start + 1); }
                    return None;
                },
            },
            None => {
                proof { lemma_overflow_is_none(s@, digits, i - start + 1); }
                return None;
            },
        }
        i += 1;
    }
    assert(digits.take(n - start) =~= digits);
    Some(value)
}

proof fn lemma_overflow_is_none(s: Seq<char>, digits: Seq<char>, i: int)
    requires
        digits == sign_stripped(s),
        0 < i <= digits.len(),
        digits_value(digits.take(i)) > usize::MAX,
    ensures
        parse_usize(s) is None,
{
    if all_digits(digits) {
        lemma_digits_value_monotone(digits, i);
        assert(digits_value(digits) > usize::MAX);
    }
}

/// Which recent commit the user picked: nothing for an empty answer, `0`, or a number
/// outside the list; the position of the commit otherwise; an `InvalidCommit` error for
/// an answer that is not a number.
pub open spec fn selection_meets(r: Result<Option<usize>>, input: Seq<char>, count: nat) -> bool {
    if input.len() == 0 || input == "0"@ {
        r matches Ok(None)
    } else {
        match parse_usize(input) {
            None => r matches Err(ShipflowError::InvalidCommit(x)) && x@ == input,
            Some(choice) => if choice == 0 || choice > count {
                r matches Ok(None)
            } else {
                r matches Ok(Some(i)) && i == choice - 1
            },
        }
    }
}

/// Reads the user's (trimmed) answer to the commit menu of `count` commits.
pub fn parse_selection(input: &str, count: usize) -> (r: Result<Option<usize>>)
    ensures
        selection_meets(r, input@, count as nat),
{
    let zero = "0";
    if input.unicode_len() == 0 {
        return Ok(None);
    }
    let owned = input.to_owned();
    if owned == zero.to_owned() {
        return Ok(None);
    }
    match parse_usize_text(input) {
        None => Err(ShipflowError::InvalidCommit(input.to_owned())),
        Some(choice) => if choice == 0 || choice > count {
            Ok(None)
        } else {
            Ok(Some(choice - 1))
        },
    }
}

/// Where the board's cursors are and which column has the focus.
#[derive(Debug, Clone, Copy, PartialEq, Eq, Structural)]
pub struct BoardState {
    pub selected_open: usize,
    pub selected_done: usize,
    pub focus_open: bool,
}

/// A key the board reacts to.
#[derive(Debug, Clone, Copy, PartialEq, Eq, Structural)]
pub enum BoardKey {
    /// `q`
    Quit,
    /// Tab
    Tab,
    /// `j` or Down
    Down,
    /// `k` or Up
    Up,
    /// `d`
    MarkDone,
    /// `a` (adding from the board is not offered yet)
    Add,
    /// Anything else
    Other,
}

/// What the board does after a key.
#[derive(Debug, Clone, Copy, PartialEq, Eq, Structural)]
pub enum BoardAction {
    /// Draw again and wait for the next key.
    Continue,
    /// Leave the board.
    Quit,
    /// Mark the open task at this position done, then draw again.
    MarkDone(usize),
}

pub open spec fn board_start() -> BoardState {
    BoardState { selected_open: 0, selected_done: 0, focus_open: true }
}

/// The board before any key: first task of each column, focus on the open column.
pub fn board_initial() -> (r: BoardState)
    ensures
        r == board_start(),
{
    BoardState { selected_open: 0, selected_done: 0, focus_open: true }
}

/// The last position of a column of `len` tasks (0 for an empty one).
pub open spec fn last_pos(len: nat) -> nat {
    if len == 0 { 0 } else { (len - 1) as nat }
}

/// Whether the cursors point into their columns (or at 0 for an empty column).
pub open spec fn board_fits(s: BoardState, open_len: nat, done_len: nat) -> bool {
    s.selected_open <= last_pos(open_len) && s.selected_done <= last_pos(done_len)
}

/// The cursors pulled back into columns of these lengths, as the board does before
/// each drawing.
pub open spec fn clamped(s: BoardState, open_len: nat, done_len: nat) -> BoardState {
    BoardState {
        selected_open: if s.selected_open >= (if open_len > 1 { open_len } else { 1 }) {
            last_pos(open_len) as usize
        } else {
            s.selected_open
        },
        selected_done: if s.selected_done >= (if done_len > 1 { done_len } else { 1 }) {
            last_pos(done_len) as usize
        } else {
            s.selected_done
        },
        focus_open: s.focus_open,
    }
}

pub fn board_clamp(state: BoardState, open_len: usize, done_len: usize) -> (r: BoardState)
    ensures
        r == clamped(state, open_len as nat, done_len as nat),
        board_fits(r, open_len as nat, done_len as nat),
{
    let mut s = state;
    let open_max: usize = if open_len > 1 { open_len } else { 1 };
    if s.selected_open >= open_max {
        s.selected_open = if open_len == 0 { 0 } else { open_len - 1 };
    }
    let done_max: usize = if done_len > 1 { done_len } else { 1 };
    if s.selected_done >= done_max {
        s.selected_done = if done_len == 0 { 0 } else { done_len - 1 };
    }
    s
}

/// The board's answer to a key: `q` leaves; Tab switches column; `j`/Down and `k`/Up
/// move the cursor of the focused column within it; `d` on a non-empty open column
/// marks the selected open task done; anything else changes nothing.
pub open spec fn board_next(s: BoardState, key: BoardKey, open_len: nat, done_len: nat) -> (BoardState, BoardAction) {
    match key {
        BoardKey::Quit => (s, BoardAction::Quit),
        BoardKey::Tab => (BoardState { focus_open: !s.focus_open, ..s }, BoardAction::Continue),
        BoardKey::Down => if s.focus_open {
            (BoardState {
                selected_open: if s.selected_open + 1 < last_pos(open_len) { (s.selected_open + 1) as usize } else { last_pos(open_len) as usize },
                ..s
            }, BoardAction::Continue)
        } else {
            (BoardState {
                selected_done: if s.selected_done + 1 < last_pos(done_len) { (s.selected_done + 1) as usize } else { last_pos(done_len) as usize },
                ..s
            }, BoardAction::Continue)
        },
        BoardKey::Up => if s.focus_open {
            (BoardState { selected_open: if s.selected_open > 0 { (s.selected_open - 1) as usize } else { 0 }, ..s }, BoardAction::Continue)
        } else {
            (BoardState { selected_done: if s.selected_done > 0 { (s.selected_done - 1) as usize } else { 0 }, ..s }, BoardAction::Continue)
        },
        BoardKey::MarkDone => if s.focus_open && open_len > 0 {
            (s, BoardAction::MarkDone(s.selected_open))
        } else {
            (s, BoardAction::Continue)
        },
        _ => (s, BoardAction::Continue),
    }
}

pub fn board_step(state: BoardState, key: BoardKey, open_len: usize, done_len: usize) -> (r: (BoardState, BoardAction))
    requires
        board_fits(state, open_len as nat, done_len as nat),
    ensures
        r == board_next(state, key, open_len as nat, done_len as nat),
{
    let open_last: usize = if open_len == 0 { 0 } else { open_len - 1 };
    let done_last: usize = if done_len == 0 { 0 } else { done_len - 1 };
    match key {
        BoardKey::Quit => (state, BoardAction::Quit),
        BoardKey::Tab => (BoardState { focus_open: !state.focus_open, ..state }, BoardAction::Continue),
        BoardKey::Down => if state.focus_open {
            let next = state.selected_open + 1;
            (BoardState { selected_open: if next < open_last { next } else { open_last }, ..state }, BoardAction::Continue)
        } else {
            let next = state.selected_done + 1;
            (BoardState { selected_done: if next < done_last { next } else { done_last }, ..state }, BoardAction::Continue)
        },
        BoardKey::Up => if state.focus_open {
            (BoardState { selected_open: if state.selected_open > 0 { state.selected_open - 1 } else { 0 }, ..state }, BoardAction::Continue)
        } else {
            (BoardState { selected_done: if state.selected_done > 0 { state.selected_done - 1 } else { 0 }, ..state }, BoardAction::Continue)
        },
        BoardKey::MarkDone => if state.focus_open && open_len > 0 {
            (state, BoardAction::MarkDone(state.selected_open))
        } else {
            (state, BoardAction::Continue)
        },
        _ => (state, BoardAction::Continue),
    }
}

/// The tasks after completing, at `at` and with no commit, the task the query `q` refers
/// to (as `TaskStore::mark_done_at` does); unchanged when the query does not pick out
/// exactly one task.
pub open spec fn complete_by_query(ts: Seq<TaskView>, q: Seq<char>, at: Timestamp) -> Seq<TaskView> {
    let m = task::resolve_matches(ts, q);
    if m.len() == 1 {
        storage::mark_first_with_id(ts, m[0].id, at, None)
    } else {
        ts
    }
}

/// One key on the board over the tasks `ts`: the cursors are pulled into the columns,
/// the key is applied, and `d` completes the selected open task at `at`. Gives the new
/// cursors, the tasks after the key, whether the board is left, and whether a task was
/// completed (so that the file is to be saved).
pub open spec fn board_round(ts: Seq<TaskView>, s: BoardState, key: BoardKey, at: Timestamp) -> (BoardState, Seq<TaskView>, bool, bool) {
    let open = ts.filter(storage::is_open());
    let done = ts.filter(storage::is_done());
    let c = clamped(s, open.len(), done.len());
    let step = board_next(c, key, open.len(), done.len());
    match step.1 {
        BoardAction::Quit => (step.0, ts, true, false),
        BoardAction::Continue => (step.0, ts, false, false),
        BoardAction::MarkDone(i) => (
            step.0,
            complete_by_query(ts, open[i as int].id, at),
            false,
            task::resolve_matches(ts, open[i as int].id).len() == 1,
        ),
    }
}

/// The tasks after the board has answered `keys` in turn, the `n`-th key at the instant
/// `ats[n]`, until a key leaves it.
pub open spec fn board_run(ts: Seq<TaskView>, s: BoardState, keys: Seq<BoardKey>, ats: Seq<Timestamp>) -> Seq<TaskView>
    decreases keys.len(),
{
    if keys.len() == 0 {
        ts
    } else {
        let r = board_round(ts, s, keys[0], ats[0]);
        if r.2 {
            r.1
        } else {
            board_run(r.1, r.0, keys.drop_first(), ats.drop_first())
        }
    }
}

/// Answers one key on the board over the store's tasks: the cursors are pulled into the
/// columns, the key is applied, and `d` completes the selected open task, looked up by
/// its identifier, at `at` with no commit. Returns the new cursors, whether the board is
/// left, and whether a task was completed.
pub fn board_key(store: &mut TaskStore, state: BoardState, key: BoardKey, at: Timestamp) -> (r: (BoardState, bool, bool))
    ensures
        final(store)@.path == old(store)@.path,
        final(store)@.version == old(store)@.version,
        board_round(old(store)@.tasks, state, key, at) == (r.0, final(store)@.tasks, r.1, r.2),
{
    let ghost ts = store@.tasks;
    let (open_len, done_len) = storage::count_by_status(store.tasks());
    let c = board_clamp(state, open_len, done_len);
    let (next, action) = board_step(c, key, open_len, done_len);
    match action {
        BoardAction::Quit => (next, true, false),
        BoardAction::Continue => (next, false, false),
        BoardAction::MarkDone(i) => {
            let none: Vec<String> = Vec::new();
            let no_tags = none.as_slice();
            let open = storage::filter_tasks(store.tasks(), Some(TaskStatus::Open), no_tags);
            proof {
                assert(no_tags.deep_view() =~= Seq::<Seq<char>>::empty());
                assert(storage::listing_pred(Some(TaskStatus::Open), Seq::empty()) =~= storage::is_open());
                assert(i < open@.len());
                assert(open@[i as int]@ == ts.filter(storage::is_open())[i as int]);
            }
            let id = open[i].id.clone();
            let done = store.mark_done_at(id.as_str(), None, at);
            (next, false, done.is_ok())
        },
    }
}

} // verus!
