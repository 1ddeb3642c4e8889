//! Where tasks are stored, the in-memory store with its queries and updates, and the
//! order in which a task file is written.

use vstd::prelude::*;

use crate::error::{Result, ShipflowError};
use crate::order;
use crate::task::{self, LinkedCommit, Task, TaskFile, TaskStatus, TaskView, SCHEMA_VERSION};
use crate::text;
use crate::time::{now, Timestamp};

verus! {

/// Where the task file lives and why.
#[derive(Debug, Clone, PartialEq, Eq)]
pub enum StorageMode {
    /// Inside a git repository: `<repo>/.shipflow/tasks.json`.
    Repo(String),
    /// The user's configuration directory.
    Global(String),
}

impl StorageMode {
    pub open spec fn path_spec(&self) -> Seq<char> {
        match self {
            StorageMode::Repo(p) => p@,
            StorageMode::Global(p) => p@,
        }
    }

    pub open spec fn label_spec(&self) -> Seq<char> {
        match self {
            StorageMode::Repo(_) => "repo"@,
            StorageMode::Global(_) => "global"@,
        }
    }

    /// The path of the task file.
    pub fn tasks_path(&self) -> (r: &str)
        ensures
            r@ == self.path_spec(),
    {
        match self {
            StorageMode::Repo(p) => p.as_str(),
            StorageMode::Global(p) => p.as_str(),
        }
    }

    /// `"repo"` or `"global"`.
    pub fn label(&self) -> (r: &'static str)
        ensures
            r@ == self.label_spec(),
    {
        match self {
            StorageMode::Repo(_) => "repo",
            StorageMode::Global(_) => "global",
        }
    }
}

/// The storage decision for a command.
#[derive(Debug, Clone)]
pub struct StorageContext {
    pub mode: StorageMode,
    pub tasks_path: String,
}

/// How the platform writes paths, which decides how `Path::join` joins them: on `Unix`
/// only `/` separates components; on `Windows` both `/` and `\\` do, `\\` is the one
/// written, and a path may start with a drive such as `C:`.
#[derive(Debug, Clone, Copy, PartialEq, Eq, Structural)]
pub enum PathStyle {
    Unix,
    Windows,
}

/// The separator `Path::join` writes.
pub open spec fn main_sep(style: PathStyle) -> char {
    match style {
        PathStyle::Unix => '/',
        PathStyle::Windows => '\\',
    }
}

/// Whether `c` separates path components.
pub open spec fn is_path_sep(c: char, style: PathStyle) -> bool {
    c == '/' || (style == PathStyle::Windows && c == '\\')
}

/// Whether `p` is a bare Windows drive such as `C:`, to which `Path::join` adds no
/// separator.
pub open spec fn bare_drive(p: Seq<char>, style: PathStyle) -> bool {
    &&& style == PathStyle::Windows
    &&& p.len() == 2
    &&& p[1] == ':'
    &&& (('a' <= p[0] && p[0] <= 'z') || ('A' <= p[0] && p[0] <= 'Z'))
}

/// Whether `p` is a Windows verbatim path (`\\?\...`). `Path::join` rebuilds such a base
/// from its components (dropping `.` and `..`), which `path_join` does not follow: the
/// contracts below leave verbatim bases out.
pub open spec fn verbatim(p: Seq<char>, style: PathStyle) -> bool {
    style == PathStyle::Windows && p.len() >= 4 && p[0] == '\\' && p[1] == '\\' && p[2] == '?' && p[3] == '\\'
}

/// `base` joined with the relative path `name`, as `Path::join` does: the platform's
/// separator is put between them unless `base` is empty, already ends in a separator,
/// or is a bare drive.
pub open spec fn path_join(base: Seq<char>, name: Seq<char>, style: PathStyle) -> Seq<char> {
    if base.len() > 0 && !is_path_sep(base.last(), style) && !bare_drive(base, style) {
        base + seq![main_sep(style)] + name
    } else {
        base + name
    }
}

fn is_ascii_letter(c: char) -> (r: bool)
    ensures
        r == (('a' <= c && c <= 'z') || ('A' <= c && c <= 'Z')),
{
    ('a' <= c && c <= 'z') || ('A' <= c && c <= 'Z')
}

/// `base` joined with the relative path `name` (`Path::join` for the platform `style`).
pub fn path_join_text(base: &str, name: &str, style: PathStyle) -> (r: String)
    ensures
        !verbatim(base@, style) ==> r@ == path_join(base@, name@, style),
{
    let n = base.unicode_len();
    let mut out = base.to_owned();
    if n > 0 {
        let last = base.get_char(n - 1);
        let windows = style == PathStyle::Windows;
        let drive = windows && n == 2 && base.get_char(1) == ':' && is_ascii_letter(base.get_char(0));
        let sep_last = last == '/' || (windows && last == '\\');
        if !sep_last && !drive {
            if windows {
                let sep = "\\";
                proof { reveal_strlit("\\"); }
                out.append(sep);
                assert(sep@ =~= seq!['\\']);
            } else {
                let sep = "/";
                proof { reveal_strlit("/"); }
                out.append(sep);
                assert(sep@ =~= seq!['/']);
            }
        }
    }
    out.append(name);
    out
}

/// The task file inside a repository whose top level is `root`.
pub open spec fn repo_tasks_path(root: Seq<char>, style: PathStyle) -> Seq<char> {
    path_join(path_join(root, ".shipflow"@, style), "tasks.json"@, style)
}

/// Whether neither `root` nor `root` joined with `.shipflow` is a verbatim path, so that
/// `path_join` follows `Path::join` on both joins.
pub open spec fn plain_repo_root(root: Seq<char>, style: PathStyle) -> bool {
    !verbatim(root, style) && !verbatim(path_join(root, ".shipflow"@, style), style)
}

/// The task file inside the configuration directory `dir`.
pub open spec fn global_tasks_path(dir: Seq<char>, style: PathStyle) -> Seq<char> {
    path_join(dir, "tasks.json"@, style)
}

/// The error when no configuration directory can be found.
pub open spec fn no_config_dir(r: Result<StorageContext>) -> bool {
    r matches Err(ShipflowError::Storage { path, message }) && path@ == "~/.config/shipflow"@
        && message@ == "could not resolve config directory"@
}

fn global_path(config_dir: &Option<String>, style: PathStyle) -> (r: Result<String>)
    ensures
        config_dir is None ==> (r matches Err(ShipflowError::Storage { path, message })
            && path@ == "~/.config/shipflow"@ && message@ == "could not resolve config directory"@),
        config_dir matches Some(d) ==> (r matches Ok(p) && (!verbatim(d@, style) ==> p@ == global_tasks_path(d@, style))),
{
    match config_dir {
        Some(d) => Ok(path_join_text(d.as_str(), "tasks.json", style)),
        None => Err(ShipflowError::Storage {
            path: String::from_str("~/.config/shipflow"),
            message: String::from_str("could not resolve config directory"),
        }),
    }
}

/// Chooses the task file, joining paths as `Path::join` does on a platform of `style`.
/// Inside a repository (`repo_root` is its top level) the file is
/// `<root>/.shipflow/tasks.json`; outside one, or with `global_flag`, it is `tasks.json`
/// in the configuration directory `config_dir`, which must then be known.
pub fn resolve_storage(global_flag: bool, repo_root: Option<String>, config_dir: Option<String>, style: PathStyle) -> (r: Result<StorageContext>)
    ensures
        (global_flag || repo_root is None) && config_dir is None ==> no_config_dir(r),
        (global_flag || repo_root is None) && config_dir is Some ==> (r matches Ok(ctx)
            && ctx.mode is Global && ctx.mode.path_spec() == ctx.tasks_path@
            && (!verbatim(config_dir->0@, style) ==> ctx.tasks_path@ == global_tasks_path(config_dir->0@, style))),
        (!global_flag && repo_root is Some) ==> (r matches Ok(ctx) && ctx.mode is Repo
            && ctx.mode.path_spec() == ctx.tasks_path@
            && (plain_repo_root(repo_root->0@, style) ==> ctx.tasks_path@ == repo_tasks_path(repo_root->0@, style))),
{
    let tasks_path = if global_flag {
        global_path(&config_dir, style)?
    } else {
        match &repo_root {
            Some(root) => {
                let dir = path_join_text(root.as_str(), ".shipflow", style);
                path_join_text(dir.as_str(), "tasks.json", style)
            },
            None => global_path(&config_dir, style)?,
        }
    };
    let mode = if global_flag || repo_root.is_none() {
        StorageMode::Global(tasks_path.clone())
    } else {
        StorageMode::Repo(tasks_path.clone())
    };
    Ok(StorageContext { mode, tasks_path })
}

/// The error for a task file written by a newer schema.
pub open spec fn unsupported_version(r: Result<()>, version: u32) -> bool {
    r matches Err(ShipflowError::Storage { path, message }) && path@ == "tasks.json"@
        && message@ == "unsupported schema version "@ + text::decimal(version as nat)
        + " (max supported: 1)"@
}

/// Brings a loaded file to the current schema: version 0 becomes 1; a version above 1
/// is refused.
pub fn migrate(file: &mut TaskFile) -> (r: Result<()>)
    ensures
        final(file).tasks@ == old(file).tasks@,
        final(file).version == if old(file).version == 0 { SCHEMA_VERSION } else { old(file).version },
        r is Ok <==> old(file).version <= SCHEMA_VERSION,
        old(file).version > SCHEMA_VERSION ==> unsupported_version(r, old(file).version),
{
    if file.version == 0 {
        file.version = SCHEMA_VERSION;
    }
    if file.version > SCHEMA_VERSION {
        let mut message = String::from_str("unsupported schema version ");
        let v = text::decimal_text(file.version as usize);
        message.append(v.as_str());
        message.append(" (max supported: 1)");
        return Err(ShipflowError::Storage { path: String::from_str("tasks.json"), message });
    }
    Ok(())
}

/// The order key of a task when the file is written: its creation instant.
pub open spec fn created_key() -> spec_fn(TaskView) -> int {
    |t: TaskView| t.created_at.key()
}

/// Copies the tasks, stably ordered by creation instant (`sort_by_key(|t| t.created_at)`).
pub fn sort_by_created(tasks: &Vec<Task>) -> (r: Vec<Task>)
    ensures
        task::task_views(r@) == order::sort_by_key(task::task_views(tasks@), created_key()),
{
    let mut out: Vec<Task> = Vec::new();
    let mut i: usize = 0;
    while i < tasks.len()
        invariant
            i <= tasks@.len(),
            task::task_views(out@) == order::sort_by_key(task::task_views(tasks@).take(i as int), created_key()),
        decreases tasks@.len() - i,
    {
        let x = tasks[i].duplicate();
        let ghost prev = task::task_views(out@);
        let mut p: usize = 0;
        while p < out.len() && !x.created_at.lt(&out[p].created_at)
            invariant
                prev == task::task_views(out@),
                p <= out@.len(),
                forall|k: int| 0 <= k < p ==> !(created_key()(x@) < created_key()(#[trigger] prev[k])),
            decreases out@.len() - p,
        {
            p += 1;
        }
        proof {
            order::lemma_insert_at(x@, prev, created_key(), p as int);
            let s = task::task_views(tasks@).take(i + 1);
            assert(s.drop_last() =~= task::task_views(tasks@).take(i as int));
            assert(s.last() == tasks@[i as int]@);
        }
        out.insert(p, x);
        assert(task::task_views(out@) =~= prev.take(p as int).push(x@) + prev.skip(p as int));
        i += 1;
    }
    assert(task::task_views(tasks@).take(tasks@.len() as int) =~= task::task_views(tasks@));
    out
}

/// What the store holds: the file's path, its schema version and its tasks.
pub ghost struct StoreView {
    pub path: Seq<char>,
    pub version: u32,
    pub tasks: Seq<TaskView>,
}

/// The tasks of one task file, with the path they are written to.
pub struct TaskStore {
    path: String,
    file: TaskFile,
}

impl View for TaskStore {
    type V = StoreView;

    closed spec fn view(&self) -> StoreView {
        StoreView { path: self.path@, version: self.file.version, tasks: task::task_views(self.file.tasks@) }
    }
}

/// The tasks after completing the first one with identifier `id`, at `at`.
pub open spec fn mark_first_with_id(ts: Seq<TaskView>, id: Seq<char>, at: Timestamp, linked: Option<task::LinkedCommitView>) -> Seq<TaskView> {
    let p = first_with_id(ts, id);
    ts.update(p, task::completed(ts[p], at, linked))
}

/// The position of the first task with identifier `id`.
pub open spec fn first_with_id(ts: Seq<TaskView>, id: Seq<char>) -> int {
    choose|p: int| 0 <= p < ts.len() && ts[p].id == id && forall|k: int| 0 <= k < p ==> #[trigger] ts[k].id != id
}

/// What completing the task that `query` refers to does: the lookup's answer for a
/// failed lookup (tasks unchanged), otherwise the first task with the found id is marked
/// done at `at` with `linked` and returned.
pub open spec fn mark_done_meets(
    r: Result<Task>,
    before: Seq<TaskView>,
    after: Seq<TaskView>,
    query: Seq<char>,
    linked: Option<task::LinkedCommitView>,
    at: Timestamp,
) -> bool {
    let matched = task::resolve_matches(before, query);
    if matched.len() == 1 {
        let id = matched[0].id;
        &&& after == mark_first_with_id(before, id, at, linked)
        &&& r matches Ok(t) && t@ == after[first_with_id(before, id)]
    } else {
        &&& after == before
        &&& matched.len() == 0 ==> (r matches Err(ShipflowError::TaskNotFound(x)) && x@ == query)
        &&& matched.len() > 1 ==> (r matches Err(ShipflowError::AmbiguousMatch { query: q, matches })
            && q@ == query && matches@ == task::match_listing(matched))
    }
}

impl TaskStore {
    /// A store over the loaded `file` at the context's path, after bringing the file to
    /// the current schema (see `migrate`).
    pub fn open(ctx: &StorageContext, file: TaskFile) -> (r: Result<TaskStore>)
        ensures
            r is Ok <==> file.version <= SCHEMA_VERSION,
            r matches Ok(s) ==> s@ == (StoreView {
                path: ctx.tasks_path@,
                version: SCHEMA_VERSION,
                tasks: task::task_views(file.tasks@),
            }),
            r matches Err(e) ==> unsupported_version(Err(e), file.version),
    {
        let mut file = file;
        match migrate(&mut file) {
            Ok(()) => Ok(TaskStore { path: ctx.tasks_path.clone(), file }),
            Err(e) => Err(e),
        }
    }

    /// The path of the task file.
    pub fn path(&self) -> (r: &str)
        ensures
            r@ == self@.path,
    {
        self.path.as_str()
    }

    /// All tasks, in stored order.
    pub fn tasks(&self) -> (r: &[Task])
        ensures
            task::task_views(r@) == self@.tasks,
    {
        self.file.tasks.as_slice()
    }

    /// The file as it is written: same version, tasks stably ordered by creation.
    pub fn file_for_save(&self) -> (r: TaskFile)
        ensures
            r.version == self@.version,
            task::task_views(r.tasks@) == order::sort_by_key(self@.tasks, created_key()),
    {
        TaskFile { version: self.file.version, tasks: sort_by_created(&self.file.tasks) }
    }

    /// Appends a task and gives back a copy of it.
    pub fn add(&mut self, task: Task) -> (r: Task)
        ensures
            final(self)@ == (StoreView { tasks: old(self)@.tasks.push(task@), ..old(self)@ }),
            r@ == task@,
    {
        let copy = task.duplicate();
        self.file.tasks.push(task);
        assert(task::task_views(self.file.tasks@) =~= task::task_views(old(self).file.tasks@).push(copy@));
        copy
    }

    /// The task `query` refers to (see `resolve_task`).
    pub fn find(&self, query: &str) -> (r: Result<&Task>)
        ensures
            task::lookup_meets(r, query@, task::resolve_matches(self@.tasks, query@)),
    {
        task::resolve_task(self.file.tasks.as_slice(), query)
    }

    /// Completes the task `query` refers to at `at`, linking `linked_commit`, and returns
    /// the completed task.
    pub fn mark_done_at(&mut self, query: &str, linked_commit: Option<LinkedCommit>, at: Timestamp) -> (r: Result<Task>)
        ensures
            final(self)@.path == old(self)@.path,
            final(self)@.version == old(self)@.version,
            mark_done_meets(r, old(self)@.tasks, final(self)@.tasks, query@, linked_commit.deep_view(), at),
    {
        let ghost before = self@.tasks;
        let id = match task::resolve_task(self.file.tasks.as_slice(), query) {
            Ok(t) => t.id.clone(),
            Err(e) => return Err(e),
        };
        let ghost matched = task::resolve_matches(before, query@);
        proof {
            assert(matched.len() == 1);
            lemma_resolved_is_stored(before, query@);
        }
        let mut index: usize = 0;
        while index < self.file.tasks.len() && self.file.tasks[index].id != id
            invariant
                before == task::task_views(self.file.tasks@),
                index <= self.file.tasks@.len(),
                id@ == matched[0].id,
                forall|k: int| 0 <= k < index ==> #[trigger] before[k].id != id@,
            decreases self.file.tasks@.len() - index,
        {
            index += 1;
        }
        if index == self.file.tasks.len() {
            proof {
                let k = choose|k: int| 0 <= k < before.len() && before[k].id == id@;
                assert(before[k].id != id@);
            }
            return Err(ShipflowError::TaskNotFound(id));
        }
        proof {
            assert(before[index as int].id == id@);
            assert(first_with_id(before, id@) == index) by {
                let p = first_with_id(before, id@);
                assert(0 <= index < before.len() && before[index as int].id == id@ && forall|k: int| 0 <= k < index ==> #[trigger] before[k].id != id@);
                if p < index {
                    assert(before[p].id != id@);
                } else if p > index {
                    assert(before[index as int].id != id@);
                }
            }
        }
        let mut tasks: Vec<Task> = Vec::new();
        std::mem::swap(&mut tasks, &mut self.file.tasks);
        let mut t = tasks.remove(index);
        t.mark_done_at(linked_commit, at);
        let result = t.duplicate();
        tasks.insert(index, t);
        self.file.tasks = tasks;
        proof {
            assert(task::task_views(self.file.tasks@) =~= mark_first_with_id(before, id@, at, linked_commit.deep_view()));
        }
        Ok(result)
    }

    /// Completes the task `query` refers to now, linking `linked_commit`.
    pub fn mark_done(&mut self, query: &str, linked_commit: Option<LinkedCommit>) -> (r: Result<Task>)
        ensures
            final(self)@.path == old(self)@.path,
            final(self)@.version == old(self)@.version,
            exists|at: Timestamp| mark_done_meets(r, old(self)@.tasks, final(self)@.tasks, query@, linked_commit.deep_view(), at),
    {
        let at = now();
        self.mark_done_at(query, linked_commit, at)
    }
}

/// A task found by a lookup has an identifier that some stored task has.
proof fn lemma_resolved_is_stored(ts: Seq<TaskView>, q: Seq<char>)
    requires
        task::resolve_matches(ts, q).len() == 1,
    ensures
        exists|k: int| 0 <= k < ts.len() && ts[k].id == task::resolve_matches(ts, q)[0].id,
{
    let m = task::resolve_matches(ts, q);
    let pred = if exists|i: int| 0 <= i < ts.len() && text::has_prefix(#[trigger] ts[i].id, q) {
        task::id_pred(q)
    } else {
        task::title_pred(q)
    };
    assert(m == ts.filter(pred));
    ts.lemma_filter_contains_rev(pred, m[0]);
    assert(m.contains(m[0]));
    let k = choose|k: int| 0 <= k < ts.len() && ts[k] == m[0];
    assert(ts[k].id == m[0].id);
}

/// Whether a task passes a listing filter: the status when one is given, and the tags.
pub open spec fn listing_pred(status: Option<TaskStatus>, tags: Seq<Seq<char>>) -> spec_fn(TaskView) -> bool {
    |t: TaskView| (status is None || status == Some(t.status)) && task::tags_match(t.tags, tags)
}

/// The tasks with the given status (any, when `None`) that carry all `tags`.
pub fn filter_tasks<'a>(tasks: &'a [Task], status: Option<TaskStatus>, tags: &[String]) -> (r: Vec<&'a Task>)
    ensures
        task::ref_views(r@) == task::task_views(tasks@).filter(listing_pred(status, tags.deep_view())),
{
    let ghost pred = listing_pred(status, tags.deep_view());
    let mut out: Vec<&'a Task> = Vec::new();
    let mut i: usize = 0;
    while i < tasks.len()
        invariant
            pred == listing_pred(status, tags.deep_view()),
            i <= tasks@.len(),
            task::ref_views(out@) == task::task_views(tasks@).take(i as int).filter(pred),
        decreases tasks@.len() - i,
    {
        proof {
            assert(task::task_views(tasks@).take(i + 1) =~= task::task_views(tasks@).take(i as int).push(tasks@[i as int]@));
            task::task_views(tasks@).take(i as int).lemma_filter_push(tasks@[i as int]@, pred);
        }
        let status_ok = match status {
            None => true,
            Some(s) => tasks[i].status == s,
        };
        if status_ok && task::tag_matches(tasks[i].tags.as_slice(), tags) {
            out.push(&tasks[i]);
            assert(task::ref_views(out@) =~= task::task_views(tasks@).take(i + 1).filter(pred));
        }
        i += 1;
    }
    assert(task::task_views(tasks@).take(tasks@.len() as int) =~= task::task_views(tasks@));
    out
}

/// Whether a task is open.
pub open spec fn is_open() -> spec_fn(TaskView) -> bool {
    |t: TaskView| t.status == TaskStatus::Open
}

/// Whether a task is done.
pub open spec fn is_done() -> spec_fn(TaskView) -> bool {
    |t: TaskView| t.status == TaskStatus::Done
}

/// The number of open and of done tasks.
pub fn count_by_status(tasks: &[Task]) -> (r: (usize, usize))
    ensures
        r.0 == task::task_views(tasks@).filter(is_open()).len(),
        r.1 == task::task_views(tasks@).filter(is_done()).len(),
{
    let mut open: usize = 0;
    let mut done: usize = 0;
    let mut i: usize = 0;
    while i < tasks.len()
        invariant
            i <= tasks@.len(),
            open == task::task_views(tasks@).take(i as int).filter(is_open()).len(),
            done == task::task_views(tasks@).take(i as int).filter(is_done()).len(),
            open + done <= i,
        decreases tasks@.len() - i,
    {
        proof {
            assert(task::task_views(tasks@).take(i + 1) =~= task::task_views(tasks@).take(i as int).push(tasks@[i as int]@));
            task::task_views(tasks@).take(i as int).lemma_filter_push(tasks@[i as int]@, is_open());
            task::task_views(tasks@).take(i as int).lemma_filter_push(tasks@[i as int]@, is_done());
        }
        match tasks[i].status {
            TaskStatus::Open => open += 1,
            TaskStatus::Done => done += 1,
        }
        i += 1;
    }
    assert(task::task_views(tasks@).take(tasks@.len() as int) =~= task::task_views(tasks@));
    (open, done)
}

} // verus!
