//! Tasks: their record, how they are created and completed, how tags are read and
//! matched, and how a query picks one task out of many.

use vstd::prelude::*;

use crate::error::{Result, ShipflowError};
use crate::text;
use crate::time::{now, Timestamp};

verus! {

/// The schema version this library writes.
pub const SCHEMA_VERSION: u32 = 1;

#[derive(Debug, Clone, Copy, PartialEq, Eq, Structural)]
pub enum TaskStatus {
    Open,
    Done,
}

/// A git commit linked to a completed task.
#[derive(Debug, Clone)]
pub struct LinkedCommit {
    pub sha: String,
    pub message: String,
    pub branch: Option<String>,
}

pub ghost struct LinkedCommitView {
    pub sha: Seq<char>,
    pub message: Seq<char>,
    pub branch: Option<Seq<char>>,
}

impl View for LinkedCommit {
    type V = LinkedCommitView;

    open spec fn view(&self) -> LinkedCommitView {
        LinkedCommitView { sha: self.sha@, message: self.message@, branch: self.branch.deep_view() }
    }
}

impl DeepView for LinkedCommit {
    type V = LinkedCommitView;

    open spec fn deep_view(&self) -> LinkedCommitView {
        self@
    }
}

/// One tracked intention.
#[derive(Debug, Clone)]
pub struct Task {
    pub id: String,
    pub title: String,
    pub tags: Vec<String>,
    pub note: Option<String>,
    pub status: TaskStatus,
    pub created_at: Timestamp,
    pub completed_at: Option<Timestamp>,
    pub linked_commit: Option<LinkedCommit>,
}

pub ghost struct TaskView {
    pub id: Seq<char>,
    pub title: Seq<char>,
    pub tags: Seq<Seq<char>>,
    pub note: Option<Seq<char>>,
    pub status: TaskStatus,
    pub created_at: Timestamp,
    pub completed_at: Option<Timestamp>,
    pub linked_commit: Option<LinkedCommitView>,
}

impl View for Task {
    type V = TaskView;

    open spec fn view(&self) -> TaskView {
        TaskView {
            id: self.id@,
            title: self.title@,
            tags: self.tags.deep_view(),
            note: self.note.deep_view(),
            status: self.status,
            created_at: self.created_at,
            completed_at: self.completed_at,
            linked_commit: self.linked_commit.deep_view(),
        }
    }
}

impl DeepView for Task {
    type V = TaskView;

    open spec fn deep_view(&self) -> TaskView {
        self@
    }
}

/// The views of a list of tasks.
pub open spec fn task_views(s: Seq<Task>) -> Seq<TaskView> {
    s.map_values(|t: Task| t@)
}

/// The views of a list of borrowed tasks.
pub open spec fn ref_views(s: Seq<&Task>) -> Seq<TaskView> {
    s.map_values(|t: &Task| t@)
}

/// The stored file: a schema version and the tasks.
#[derive(Debug, Clone)]
pub struct TaskFile {
    pub version: u32,
    pub tasks: Vec<Task>,
}

impl TaskFile {
    /// A file of the current schema with no tasks.
    pub fn empty() -> (r: Self)
        ensures
            r.version == SCHEMA_VERSION,
            r.tasks@.len() == 0,
    {
        TaskFile { version: SCHEMA_VERSION, tasks: Vec::new() }
    }
}

fn copy_opt_text(s: &Option<String>) -> (r: Option<String>)
    ensures
        r.deep_view() == s.deep_view(),
{
    match s {
        Some(x) => Some(x.clone()),
        None => None,
    }
}

fn copy_texts(v: &Vec<String>) -> (r: Vec<String>)
    ensures
        r.deep_view() == v.deep_view(),
{
    let mut out: Vec<String> = Vec::new();
    let mut i: usize = 0;
    while i < v.len()
        invariant
            i <= v@.len(),
            out@.len() == i,
            forall|k: int| 0 <= k < i ==> #[trigger] out@[k]@ == v@[k]@,
        decreases v@.len() - i,
    {
        out.push(v[i].clone());
        i += 1;
    }
    assert(out.deep_view() =~= v.deep_view());
    out
}

impl LinkedCommit {
    /// An equal copy.
    pub fn duplicate(&self) -> (r: LinkedCommit)
        ensures
            r@ == self@,
    {
        LinkedCommit {
            sha: self.sha.clone(),
            message: self.message.clone(),
            branch: copy_opt_text(&self.branch),
        }
    }
}

fn copy_opt_commit(c: &Option<LinkedCommit>) -> (r: Option<LinkedCommit>)
    ensures
        r.deep_view() == c.deep_view(),
{
    match c {
        Some(x) => Some(x.duplicate()),
        None => None,
    }
}

/// The 26-character Crockford base-32 alphabet of ULID text.
pub open spec fn is_ulid_char(c: char) -> bool {
    ('0' <= c && c <= '9') || ('A' <= c && c <= 'Z' && c != 'I' && c != 'L' && c != 'O' && c != 'U')
}

/// ulid's `Ulid::new().to_string()`: a fresh identifier from the clock and a random
/// source. Claimed: 26 characters, each from the Crockford alphabet
/// `0123456789ABCDEFGHJKMNPQRSTVWXYZ` (`base32::encode` fills a 26-byte buffer from it).
/// Which identifier comes out is left to chance and time.
#[verifier::external_body]
fn fresh_ulid() -> (r: String)
    ensures
        r@.len() == 26,
        forall|k: int| 0 <= k < 26 ==> is_ulid_char(#[trigger] r@[k]),
{
    ulid::Ulid::new().to_string()
}

/// A task as it looks once completed at `at` with `linked` attached.
pub open spec fn completed(t: TaskView, at: Timestamp, linked: Option<LinkedCommitView>) -> TaskView {
    TaskView { status: TaskStatus::Done, completed_at: Some(at), linked_commit: linked, ..t }
}

impl Task {
    /// An equal copy.
    pub fn duplicate(&self) -> (r: Task)
        ensures
            r@ == self@,
    {
        Task {
            id: self.id.clone(),
            title: self.title.clone(),
            tags: copy_texts(&self.tags),
            note: copy_opt_text(&self.note),
            status: self.status,
            created_at: self.created_at,
            completed_at: self.completed_at,
            linked_commit: copy_opt_commit(&self.linked_commit),
        }
    }

    /// A new open task created at `created_at` with identifier `id`.
    pub fn with_id(id: String, title: String, tags: Vec<String>, note: Option<String>, created_at: Timestamp) -> (r: Task)
        ensures
            r.id@ == id@,
            r.title@ == title@,
            r.tags.deep_view() == tags.deep_view(),
            r.note.deep_view() == note.deep_view(),
            r.status == TaskStatus::Open,
            r.created_at == created_at,
            r.completed_at is None,
            r.linked_commit is None,
    {
        Task {
            id,
            title,
            tags,
            note,
            status: TaskStatus::Open,
            created_at,
            completed_at: None,
            linked_commit: None,
        }
    }

    /// A new open task with a fresh ULID identifier, created now: at a reading of the
    /// clock, which is never before 1970 nor inside a leap second.
    pub fn new(title: String, tags: Vec<String>, note: Option<String>) -> (r: Task)
        ensures
            r.id@.len() == 26,
            r.created_at.secs_spec() >= 0,
            r.created_at.nanos_spec() < crate::time::NANOS_PER_SEC,
            forall|k: int| 0 <= k < 26 ==> is_ulid_char(#[trigger] r.id@[k]),
            r.title@ == title@,
            r.tags.deep_view() == tags.deep_view(),
            r.note.deep_view() == note.deep_view(),
            r.status == TaskStatus::Open,
            r.completed_at is None,
            r.linked_commit is None,
    {
        let id = fresh_ulid();
        let created_at = now();
        Task::with_id(id, title, tags, note, created_at)
    }

    /// Marks the task done at `at`, replacing any linked commit with `linked_commit`.
    pub fn mark_done_at(&mut self, linked_commit: Option<LinkedCommit>, at: Timestamp)
        ensures
            final(self)@ == completed(old(self)@, at, linked_commit.deep_view()),
    {
        self.status = TaskStatus::Done;
        self.completed_at = Some(at);
        self.linked_commit = linked_commit;
    }

    /// Marks the task done now, replacing any linked commit with `linked_commit`.
    pub fn mark_done(&mut self, linked_commit: Option<LinkedCommit>)
        ensures
            exists|at: Timestamp| final(self)@ == completed(old(self)@, at, linked_commit.deep_view()),
    {
        let at = now();
        self.mark_done_at(linked_commit, at);
    }
}

} // verus!

verus! {

/// The trimmed pieces of a list that are not empty, in order.
pub open spec fn nonempty_trimmed(pieces: Seq<Seq<char>>) -> Seq<Seq<char>>
    decreases pieces.len(),
{
    if pieces.len() == 0 {
        Seq::empty()
    } else {
        let rest = nonempty_trimmed(pieces.drop_last());
        let t = text::trimmed(pieces.last());
        if t.len() > 0 {
            rest.push(t)
        } else {
            rest
        }
    }
}

/// The tags written in `raw`: comma-separated, each trimmed, empty ones dropped.
pub open spec fn tags_of(raw: Seq<char>) -> Seq<Seq<char>> {
    nonempty_trimmed(text::split_on(raw, ','))
}

proof fn lemma_nonempty_trimmed_push(pieces: Seq<Seq<char>>, p: Seq<char>)
    ensures
        nonempty_trimmed(pieces.push(p)) == if text::trimmed(p).len() > 0 {
            nonempty_trimmed(pieces).push(text::trimmed(p))
        } else {
            nonempty_trimmed(pieces)
        },
{
    assert(pieces.push(p).drop_last() =~= pieces);
}

/// Splits a comma-separated list of tags, trimming each and dropping empty ones.
/// No input gives no tags.
pub fn parse_tags(raw: Option<&str>) -> (r: Vec<String>)
    ensures
        r.deep_view() == match raw {
            Some(s) => tags_of(s@),
            None => Seq::empty(),
        },
{
    let s = match raw {
        Some(s) => s,
        None => {
            let r: Vec<String> = Vec::new();
            assert(r.deep_view() =~= Seq::<Seq<char>>::empty());
            return r;
        },
    };
    let chars = text::chars_of(s);
    let n = chars.len();
    let mut out: Vec<String> = Vec::new();
    let mut start: usize = 0;
    let mut i: usize = 0;
    let ghost mut done: Seq<Seq<char>> = Seq::empty();
    proof {
        assert(s@.take(0) =~= Seq::<char>::empty());
        assert(s@.subrange(0, 0) =~= Seq::<char>::empty());
        assert(done.push(s@.subrange(0, 0)) =~= seq![Seq::<char>::empty()]);
        assert(out.deep_view() =~= nonempty_trimmed(done));
    }
    while i < n
        invariant
            chars@ == s@,
            n == s@.len(),
            start <= i <= n,
            text::split_on(s@.take(i as int), ',') == done.push(s@.subrange(start as int, i as int)),
            out.deep_view() == nonempty_trimmed(done),
        decreases n - i,
    {
        proof {
            crate::text::lemma_split_on_step(s@, ',', i as int, start as int, done);
        }
        if chars[i] == ',' {
            let piece = text::trim_text(s.substring_char(start, i));
            proof {
                lemma_nonempty_trimmed_push(done, s@.subrange(start as int, i as int));
            }
            if piece.unicode_len() > 0 {
                out.push(piece);
            }
            proof {
                done = done.push(s@.subrange(start as int, i as int));
                assert(out.deep_view() =~= nonempty_trimmed(done));
            }
            start = i + 1;
        }
        i += 1;
    }
    let piece = text::trim_text(s.substring_char(start, n));
    proof {
        lemma_nonempty_trimmed_push(done, s@.subrange(start as int, n as int));
        assert(s@.take(n as int) =~= s@);
    }
    if piece.unicode_len() > 0 {
        out.push(piece);
    }
    assert(out.deep_view() =~= tags_of(s@));
    out
}

/// Whether some tag in `task_tags` equals `tag`, ignoring ASCII case.
pub open spec fn has_tag_like(task_tags: Seq<Seq<char>>, tag: Seq<char>) -> bool {
    exists|t: int| 0 <= t < task_tags.len() && text::eq_ignore_case(#[trigger] task_tags[t], tag)
}

/// Whether every filter tag equals some task tag, ignoring ASCII case.
pub open spec fn tags_match(task_tags: Seq<Seq<char>>, filter_tags: Seq<Seq<char>>) -> bool {
    forall|f: int| 0 <= f < filter_tags.len() ==> has_tag_like(task_tags, #[trigger] filter_tags[f])
}

fn has_tag(task_tags: &[String], filter: &String) -> (r: bool)
    ensures
        r == has_tag_like(task_tags.deep_view(), filter@),
{
    let ghost tv = task_tags.deep_view();
    let mut k: usize = 0;
    while k < task_tags.len()
        invariant
            tv == task_tags.deep_view(),
            k <= task_tags@.len(),
            forall|t: int| 0 <= t < k ==> !text::eq_ignore_case(#[trigger] tv[t], filter@),
        decreases task_tags@.len() - k,
    {
        if text::eq_ignore_ascii_case(task_tags[k].as_str(), filter.as_str()) {
            assert(tv[k as int] == task_tags@[k as int]@);
            return true;
        }
        assert(tv[k as int] == task_tags@[k as int]@);
        k += 1;
    }
    false
}

/// Whether a task with `task_tags` passes the filter `filter_tags`: every filter tag
/// must be among the task's tags, compared without ASCII case. No filter tags pass all.
pub fn tag_matches(task_tags: &[String], filter_tags: &[String]) -> (r: bool)
    ensures
        r == tags_match(task_tags.deep_view(), filter_tags.deep_view()),
{
    let ghost tv = task_tags.deep_view();
    let ghost fv = filter_tags.deep_view();
    if filter_tags.len() == 0 {
        return true;
    }
    let mut f: usize = 0;
    while f < filter_tags.len()
        invariant
            tv == task_tags.deep_view(),
            fv == filter_tags.deep_view(),
            f <= filter_tags@.len(),
            forall|g: int| 0 <= g < f ==> has_tag_like(tv, #[trigger] fv[g]),
        decreases filter_tags@.len() - f,
    {
        assert(fv[f as int] == filter_tags@[f as int]@);
        if !has_tag(task_tags, &filter_tags[f]) {
            return false;
        }
        f += 1;
    }
    true
}

/// A task matches an identifier query when its id begins with the query.
pub open spec fn id_pred(q: Seq<char>) -> spec_fn(TaskView) -> bool {
    |t: TaskView| text::has_prefix(t.id, q)
}

/// A task matches a title query when its lowercased title contains the lowercased query.
pub open spec fn title_pred(q: Seq<char>) -> spec_fn(TaskView) -> bool {
    |t: TaskView| text::has_infix(text::spec_to_lowercase(t.title), text::spec_to_lowercase(q))
}

/// How one task is listed when a query is ambiguous.
pub open spec fn match_line(t: TaskView) -> Seq<char> {
    "  "@ + t.id + " — "@ + t.title
}

/// The listing of ambiguous matches, one line per task.
pub open spec fn match_listing(ts: Seq<TaskView>) -> Seq<char> {
    text::joined(ts.map_values(|t: TaskView| match_line(t)), "\n"@)
}

/// What a lookup answers for the tasks `matched` that fit the query `q`: the task when
/// exactly one fits, "not found" when none does, and the list of candidates otherwise.
pub open spec fn lookup_meets(r: Result<&Task>, q: Seq<char>, matched: Seq<TaskView>) -> bool {
    if matched.len() == 0 {
        r matches Err(ShipflowError::TaskNotFound(x)) && x@ == q
    } else if matched.len() == 1 {
        r matches Ok(t) && t@ == matched[0]
    } else {
        r matches Err(ShipflowError::AmbiguousMatch { query, matches }) && query@ == q
            && matches@ == match_listing(matched)
    }
}

/// The tasks a query refers to: those whose id begins with it when there are any,
/// otherwise those whose title contains it without regard to case.
pub open spec fn resolve_matches(ts: Seq<TaskView>, q: Seq<char>) -> Seq<TaskView> {
    if exists|i: int| 0 <= i < ts.len() && text::has_prefix(#[trigger] ts[i].id, q) {
        ts.filter(id_pred(q))
    } else {
        ts.filter(title_pred(q))
    }
}

fn match_line_text(t: &Task) -> (r: String)
    ensures
        r@ == match_line(t@),
{
    let mut s = String::from_str("  ");
    s.append(t.id.as_str());
    s.append(" — ");
    s.append(t.title.as_str());
    s
}

/// The candidates of an ambiguous query, one `  <id> — <title>` line each.
fn format_matches(tasks: &Vec<&Task>) -> (r: String)
    ensures
        r@ == match_listing(ref_views(tasks@)),
{
    let mut lines: Vec<String> = Vec::new();
    let mut i: usize = 0;
    while i < tasks.len()
        invariant
            i <= tasks@.len(),
            lines@.len() == i,
            forall|k: int| 0 <= k < i ==> #[trigger] lines@[k]@ == match_line(tasks@[k]@),
        decreases tasks@.len() - i,
    {
        lines.push(match_line_text(tasks[i]));
        i += 1;
    }
    let r = text::join(&lines, "\n");
    assert(text::views(lines@) =~= ref_views(tasks@).map_values(|t: TaskView| match_line(t)));
    r
}

proof fn lemma_take_push_view(tasks: Seq<Task>, i: int)
    requires
        0 <= i < tasks.len(),
    ensures
        task_views(tasks).take(i + 1) == task_views(tasks).take(i).push(tasks[i]@),
{
    assert(task_views(tasks).take(i + 1) =~= task_views(tasks).take(i).push(tasks[i]@));
}

/// Turns the collected candidates into the lookup's answer.
fn conclude_lookup<'a>(matches: Vec<&'a Task>, query: &str) -> (r: Result<&'a Task>)
    ensures
        lookup_meets(r, query@, ref_views(matches@)),
{
    if matches.len() == 0 {
        Err(ShipflowError::TaskNotFound(query.to_owned()))
    } else if matches.len() == 1 {
        Ok(matches[0])
    } else {
        let listing = format_matches(&matches);
        Err(ShipflowError::AmbiguousMatch { query: query.to_owned(), matches: listing })
    }
}

/// The task whose id begins with `query`; not found when none does, ambiguous when
/// several do.
pub fn find_by_id_prefix<'a>(tasks: &'a [Task], query: &str) -> (r: Result<&'a Task>)
    ensures
        lookup_meets(r, query@, task_views(tasks@).filter(id_pred(query@))),
{
    let mut matches: Vec<&'a Task> = Vec::new();
    let mut i: usize = 0;
    while i < tasks.len()
        invariant
            i <= tasks@.len(),
            ref_views(matches@) == task_views(tasks@).take(i as int).filter(id_pred(query@)),
        decreases tasks@.len() - i,
    {
        proof {
            lemma_take_push_view(tasks@, i as int);
            task_views(tasks@).take(i as int).lemma_filter_push(tasks@[i as int]@, id_pred(query@));
        }
        if text::starts_with(tasks[i].id.as_str(), query) {
            matches.push(&tasks[i]);
            assert(ref_views(matches@) =~= task_views(tasks@).take(i + 1).filter(id_pred(query@)));
        }
        i += 1;
    }
    assert(task_views(tasks@).take(tasks@.len() as int) =~= task_views(tasks@));
    conclude_lookup(matches, query)
}

/// The task whose title contains `query`, compared in lowercase; not found when none
/// does, ambiguous when several do.
pub fn find_by_partial_title<'a>(tasks: &'a [Task], query: &str) -> (r: Result<&'a Task>)
    ensures
        lookup_meets(r, query@, task_views(tasks@).filter(title_pred(query@))),
{
    let query_lower = text::to_lowercase(query);
    let mut matches: Vec<&'a Task> = Vec::new();
    let mut i: usize = 0;
    while i < tasks.len()
        invariant
            i <= tasks@.len(),
            query_lower@ == text::spec_to_lowercase(query@),
            ref_views(matches@) == task_views(tasks@).take(i as int).filter(title_pred(query@)),
        decreases tasks@.len() - i,
    {
        proof {
            lemma_take_push_view(tasks@, i as int);
            task_views(tasks@).take(i as int).lemma_filter_push(tasks@[i as int]@, title_pred(query@));
        }
        let title_lower = text::to_lowercase(tasks[i].title.as_str());
        if text::contains(title_lower.as_str(), query_lower.as_str()) {
            matches.push(&tasks[i]);
            assert(ref_views(matches@) =~= task_views(tasks@).take(i + 1).filter(title_pred(query@)));
        }
        i += 1;
    }
    assert(task_views(tasks@).take(tasks@.len() as int) =~= task_views(tasks@));
    conclude_lookup(matches, query)
}

/// The task a query refers to: by id prefix when any id begins with the query,
/// otherwise by partial title.
pub fn resolve_task<'a>(tasks: &'a [Task], query: &str) -> (r: Result<&'a Task>)
    ensures
        lookup_meets(r, query@, resolve_matches(task_views(tasks@), query@)),
{
    let ghost ts = task_views(tasks@);
    let mut i: usize = 0;
    while i < tasks.len()
        invariant
            ts == task_views(tasks@),
            i <= tasks@.len(),
            forall|k: int| 0 <= k < i ==> !text::has_prefix(#[trigger] ts[k].id, query@),
        decreases tasks@.len() - i,
    {
        if text::starts_with(tasks[i].id.as_str(), query) {
            assert(text::has_prefix(ts[i as int].id, query@));
            return find_by_id_prefix(tasks, query);
        }
        i += 1;
    }
    find_by_partial_title(tasks, query)
}

} // verus!
