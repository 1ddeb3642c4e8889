//! "What I shipped" reports: which tasks a period covers, the statistics over them and
//! the text and Markdown renderings.

use vstd::prelude::*;

use crate::order;
use crate::task::{self, Task, TaskStatus, TaskView};
use crate::text;
use crate::table;
use crate::task::LinkedCommitView;
use crate::time::{self, Timestamp};
use crate::utils::{self, ColorMode};

verus! {

#[derive(Debug, Clone, Copy, PartialEq, Eq, Structural)]
pub enum ReportPeriod {
    Today,
    Week,
    Month,
    All,
}

#[derive(Debug, Clone, Copy, PartialEq, Eq, Structural)]
pub enum ReportFormat {
    Text,
    Markdown,
}

/// How many days back a period reaches (`Week` and `Month` only).
pub open spec fn days_back(period: ReportPeriod) -> int {
    match period {
        ReportPeriod::Week => 7,
        ReportPeriod::Month => 30,
        _ => 0,
    }
}

/// Whether the period's start can be computed from `now`: going back a week or a month
/// must stay within chrono's calendar (chrono panics otherwise).
pub open spec fn start_defined(period: ReportPeriod, now: Timestamp) -> bool {
    (period == ReportPeriod::Week || period == ReportPeriod::Month) ==> now.can_go_back_spec(days_back(period))
}

/// The key of the period's first instant, when it has one: the start of the UTC day
/// for `Today`, seven or thirty days before `now` for `Week` and `Month`.
pub open spec fn start_key(period: ReportPeriod, now: Timestamp) -> Option<int> {
    match period {
        ReportPeriod::All => None,
        ReportPeriod::Today => Some(
            (now.secs_spec() - now.secs_spec() % (time::SECS_PER_DAY as int)) * 0x1_0000_0000,
        ),
        _ => Some(
            time::days_back_secs(now.secs_spec(), now.nanos_spec(), days_back(period)) * 0x1_0000_0000
                + time::days_back_nanos(now.nanos_spec()),
        ),
    }
}

pub open spec fn label_of(period: ReportPeriod) -> Seq<char> {
    match period {
        ReportPeriod::Today => "today"@,
        ReportPeriod::Week => "this week"@,
        ReportPeriod::Month => "this month"@,
        ReportPeriod::All => "all time"@,
    }
}

impl ReportPeriod {
    /// The first instant the period covers when the current instant is `now`; `All`
    /// has none.
    pub fn start(&self, now: Timestamp) -> (r: Option<Timestamp>)
        requires
            start_defined(*self, now),
        ensures
            r is None <==> *self == ReportPeriod::All,
            r matches Some(s) ==> start_key(*self, now) == Some(s.key()),
    {
        match self {
            ReportPeriod::All => None,
            ReportPeriod::Today => Some(now.start_of_day()),
            ReportPeriod::Week => Some(now.minus_days(7)),
            ReportPeriod::Month => Some(now.minus_days(30)),
        }
    }

    pub fn label(&self) -> (r: &'static str)
        ensures
            r@ == label_of(*self),
    {
        match self {
            ReportPeriod::Today => "today",
            ReportPeriod::Week => "this week",
            ReportPeriod::Month => "this month",
            ReportPeriod::All => "all time",
        }
    }
}

/// The order key of a completion instant; no instant orders first.
pub open spec fn completed_key() -> spec_fn(TaskView) -> int {
    |t: TaskView| match t.completed_at {
        Some(c) => c.key(),
        None => time::min_key() - 1,
    }
}

/// Whether a task counts as shipped in the period: done, and, for a bounded period,
/// completed at or after its start and not after `now`.
pub open spec fn shipped_pred(start: Option<int>, now: Timestamp) -> spec_fn(TaskView) -> bool {
    |t: TaskView| t.status == TaskStatus::Done && match start {
        None => true,
        Some(s) => match t.completed_at {
            Some(c) => s <= c.key() && c.key() <= now.key(),
            None => false,
        },
    }
}

/// The tasks a report covers: the shipped ones, most recently completed first (a
/// stable sort by completion instant, reversed).
pub open spec fn shipped_in(ts: Seq<TaskView>, period: ReportPeriod, now: Timestamp) -> Seq<TaskView> {
    order::sort_by_key(ts.filter(shipped_pred(start_key(period, now), now)), completed_key()).reverse()
}

fn completed_before(a: &Task, b: &Task) -> (r: bool)
    ensures
        r == (completed_key()(a@) < completed_key()(b@)),
{
    match (&a.completed_at, &b.completed_at) {
        (None, None) => false,
        (None, Some(y)) => {
            proof { y.lemma_key_lower_bound(); }
            true
        },
        (Some(x), None) => {
            proof { x.lemma_key_lower_bound(); }
            false
        },
        (Some(x), Some(y)) => x.lt(y),
    }
}

fn sort_by_completed<'a>(v: &Vec<&'a Task>) -> (r: Vec<&'a Task>)
    ensures
        task::ref_views(r@) == order::sort_by_key(task::ref_views(v@), completed_key()),
{
    let mut out: Vec<&'a Task> = Vec::new();
    let mut i: usize = 0;
    while i < v.len()
        invariant
            i <= v@.len(),
            task::ref_views(out@) == order::sort_by_key(task::ref_views(v@).take(i as int), completed_key()),
        decreases v@.len() - i,
    {
        let x: &'a Task = v[i];
        let ghost prev = task::ref_views(out@);
        let mut p: usize = 0;
        while p < out.len() && !completed_before(x, out[p])
            invariant
                prev == task::ref_views(out@),
                p <= out@.len(),
                forall|k: int| 0 <= k < p ==> !(completed_key()(x@) < completed_key()(#[trigger] prev[k])),
            decreases out@.len() - p,
        {
            p += 1;
        }
        proof {
            order::lemma_insert_at(x@, prev, completed_key(), p as int);
            let s = task::ref_views(v@).take(i + 1);
            assert(s.drop_last() =~= task::ref_views(v@).take(i as int));
            assert(s.last() == v@[i as int]@);
        }
        out.insert(p, x);
        assert(task::ref_views(out@) =~= prev.take(p as int).push(x@) + prev.skip(p as int));
        i += 1;
    }
    assert(task::ref_views(v@).take(v@.len() as int) =~= task::ref_views(v@));
    out
}

/// The tasks shipped in `period` as of `now`, most recently completed first.
pub fn shipped_tasks_at<'a>(tasks: &'a [Task], period: ReportPeriod, now: Timestamp) -> (r: Vec<&'a Task>)
    requires
        start_defined(period, now),
    ensures
        task::ref_views(r@) == shipped_in(task::task_views(tasks@), period, now),
{
    let start = period.start(now);
    let ghost pred = shipped_pred(start_key(period, now), now);
    let mut done: Vec<&'a Task> = Vec::new();
    let mut i: usize = 0;
    while i < tasks.len()
        invariant
            pred == shipped_pred(start_key(period, now), now),
            start is None <==> period == ReportPeriod::All,
            start matches Some(s) ==> start_key(period, now) == Some(s.key()),
            i <= tasks@.len(),
            task::ref_views(done@) == task::task_views(tasks@).take(i as int).filter(pred),
        decreases tasks@.len() - i,
    {
        proof {
            assert(task::task_views(tasks@).take(i + 1) =~= task::task_views(tasks@).take(i as int).push(tasks@[i as int]@));
            task::task_views(tasks@).take(i as int).lemma_filter_push(tasks@[i as int]@, pred);
        }
        let t = &tasks[i];
        let in_period = match &start {
            None => true,
            Some(s) => match &t.completed_at {
                Some(c) => s.le(c) && c.le(&now),
                None => false,
            },
        };
        if t.status == TaskStatus::Done && in_period {
            done.push(t);
            assert(task::ref_views(done@) =~= task::task_views(tasks@).take(i + 1).filter(pred));
        }
        i += 1;
    }
    assert(task::task_views(tasks@).take(tasks@.len() as int) =~= task::task_views(tasks@));
    let sorted = sort_by_completed(&done);
    let mut out: Vec<&'a Task> = Vec::new();
    let mut k: usize = sorted.len();
    while k > 0
        invariant
            k <= sorted@.len(),
            task::ref_views(out@) == task::ref_views(sorted@).reverse().take(sorted@.len() - k),
        decreases k,
    {
        k -= 1;
        let ghost rev = task::ref_views(sorted@).reverse();
        let ghost prev = task::ref_views(out@);
        assert(rev[sorted@.len() - 1 - k] == sorted@[k as int]@);
        out.push(sorted[k]);
        assert(task::ref_views(out@) =~= prev.push(sorted@[k as int]@));
        assert(rev.take(sorted@.len() - k) =~= rev.take(sorted@.len() - 1 - k).push(rev[sorted@.len() - 1 - k]));
    }
    assert(task::ref_views(sorted@).reverse().take(sorted@.len() as int) =~= task::ref_views(sorted@).reverse());
    out
}

/// The tasks shipped in `period` up to the current instant, most recently completed first.
/// The clock never reads before 1970, so going back a week or a month from it always
/// stays within chrono's calendar.
pub fn shipped_tasks<'a>(tasks: &'a [Task], period: ReportPeriod) -> (r: Vec<&'a Task>)
    ensures
        exists|now: Timestamp| now.secs_spec() >= 0 && start_defined(period, now)
            && task::ref_views(r@) == shipped_in(task::task_views(tasks@), period, now),
{
    let now = time::now();
    assert(start_defined(period, now)) by {
        assert(time::MIN_SECS + 30 * 86400 < 0);
    }
    let v = shipped_tasks_at(tasks, period, now);
    assert(now.secs_spec() >= 0 && start_defined(period, now) && task::ref_views(v@) == shipped_in(task::task_views(tasks@), period, now));
    v
}

/// Numbers shown at the top of a report.
pub struct ReportStats {
    pub shipped: usize,
    pub linked_commits: usize,
    /// The most used tags with their use counts, at most five.
    pub top_tags: Vec<(String, usize)>,
}

/// Every tag of every task, in order.
pub open spec fn all_tags(ts: Seq<TaskView>) -> Seq<Seq<char>>
    decreases ts.len(),
{
    if ts.len() == 0 {
        Seq::empty()
    } else {
        all_tags(ts.drop_last()) + ts.last().tags
    }
}

/// How often `tag` is used over the tasks.
pub open spec fn tag_count(ts: Seq<TaskView>, tag: Seq<char>) -> nat {
    all_tags(ts).to_multiset().count(tag)
}

/// Whether tag entry `a` ranks before `b`: used more often, or as often and sorting
/// first by name.
pub open spec fn ranks_before(a: (Seq<char>, int), b: (Seq<char>, int)) -> bool {
    a.1 > b.1 || (a.1 == b.1 && text::seq_lt(a.0, b.0))
}

pub open spec fn entry_views(v: Seq<(String, usize)>) -> Seq<(Seq<char>, int)> {
    v.map_values(|e: (String, usize)| (e.0@, e.1 as int))
}

/// Whether `r` lists the top tags of the tasks: each used tag with its count, ranked,
/// at most five, and no used tag left out that ranks before the last one listed.
pub open spec fn top_tags_of(r: Seq<(Seq<char>, int)>, ts: Seq<TaskView>) -> bool {
    &&& r.len() <= 5
    &&& forall|i: int| 0 <= i < r.len() ==> #[trigger] r[i].1 == tag_count(ts, r[i].0) && r[i].1 > 0
    &&& forall|i: int, j: int| 0 <= i < j < r.len() ==> ranks_before(#[trigger] r[i], #[trigger] r[j])
    &&& forall|x: Seq<char>|
        tag_count(ts, x) > 0 && !(exists|i: int| 0 <= i < r.len() && #[trigger] r[i].0 == x) ==> r.len() == 5
            && ranks_before(r[4], (x, tag_count(ts, x) as int))
}

/// Whether a task has a linked commit.
pub open spec fn has_link() -> spec_fn(TaskView) -> bool {
    |t: TaskView| t.linked_commit is Some
}

proof fn lemma_ranks_transitive(a: (Seq<char>, int), b: (Seq<char>, int), c: (Seq<char>, int))
    requires
        ranks_before(a, b),
        ranks_before(b, c),
    ensures
        ranks_before(a, c),
{
    if a.1 == b.1 && b.1 == c.1 {
        text::lemma_seq_lt_transitive(a.0, b.0, c.0);
    }
}

proof fn lemma_ranks_total(a: (Seq<char>, int), b: (Seq<char>, int))
    requires
        a.0 != b.0,
    ensures
        ranks_before(a, b) || ranks_before(b, a),
{
    text::lemma_seq_lt_total(a.0, b.0);
}

fn ranks_before_exec(a: &(String, usize), b: &(String, usize)) -> (r: bool)
    ensures
        r == ranks_before((a.0@, a.1 as int), (b.0@, b.1 as int)),
{
    a.1 > b.1 || (a.1 == b.1 && text::str_lt(a.0.as_str(), b.0.as_str()))
}

proof fn lemma_all_tags_push(ts: Seq<TaskView>, t: TaskView)
    ensures
        all_tags(ts.push(t)) == all_tags(ts) + t.tags,
{
    assert(ts.push(t).drop_last() =~= ts);
}

/// Tag use counts over the tasks, one entry per distinct tag.
fn count_tags(tasks: &[&Task]) -> (r: Vec<(String, usize)>)
    requires
        all_tags(task::ref_views(tasks@)).len() <= usize::MAX,
    ensures
        forall|a: int, b: int| 0 <= a < b < r@.len() ==> (#[trigger] r@[a]).0@ != (#[trigger] r@[b]).0@,
        forall|k: int| 0 <= k < r@.len() ==> (#[trigger] r@[k]).1 == tag_count(task::ref_views(tasks@), r@[k].0@)
            && r@[k].1 > 0,
        forall|x: Seq<char>| tag_count(task::ref_views(tasks@), x) > 0 ==> exists|k: int| 0 <= k < r@.len() && (#[trigger] r@[k]).0@ == x,
{
    broadcast use vstd::seq_lib::group_to_multiset_ensures;
    let ghost ts = task::ref_views(tasks@);
    let mut counts: Vec<(String, usize)> = Vec::new();
    let ghost mut seen: Seq<Seq<char>> = Seq::empty();
    let mut i: usize = 0;
    while i < tasks.len()
        invariant
            ts == task::ref_views(tasks@),
            all_tags(ts).len() <= usize::MAX,
            i <= tasks@.len(),
            seen == all_tags(ts.take(i as int)),
            forall|a: int, b: int| 0 <= a < b < counts@.len() ==> (#[trigger] counts@[a]).0@ != (#[trigger] counts@[b]).0@,
            forall|k: int| 0 <= k < counts@.len() ==> (#[trigger] counts@[k]).1 == seen.to_multiset().count(counts@[k].0@)
                && counts@[k].1 > 0 && counts@[k].1 <= seen.len(),
            forall|x: Seq<char>| seen.to_multiset().count(x) > 0 ==> exists|k: int| 0 <= k < counts@.len() && (#[trigger] counts@[k]).0@ == x,
        decreases tasks@.len() - i,
    {
        let task = tasks[i];
        let ghost base = seen;
        proof {
            lemma_all_tags_push(ts.take(i as int), task@);
            assert(ts.take(i + 1) =~= ts.take(i as int).push(task@));
            lemma_all_tags_prefix_len(ts, i + 1);
        }
        let mut j: usize = 0;
        while j < task.tags.len()
            invariant
                ts == task::ref_views(tasks@),
                task@ == ts[i as int],
                i < tasks@.len(),
                base == all_tags(ts.take(i as int)),
                (base + task@.tags).len() <= usize::MAX,
                j <= task@.tags.len(),
                seen == base + task@.tags.take(j as int),
                forall|a: int, b: int| 0 <= a < b < counts@.len() ==> (#[trigger] counts@[a]).0@ != (#[trigger] counts@[b]).0@,
                forall|k: int| 0 <= k < counts@.len() ==> (#[trigger] counts@[k]).1 == seen.to_multiset().count(counts@[k].0@)
                    && counts@[k].1 > 0 && counts@[k].1 <= seen.len(),
                forall|x: Seq<char>| seen.to_multiset().count(x) > 0 ==> exists|k: int| 0 <= k < counts@.len() && (#[trigger] counts@[k]).0@ == x,
            decreases task@.tags.len() - j,
        {
            let tag = &task.tags[j];
            let ghost next = seen.push(tag@);
            proof {
                assert(task@.tags[j as int] == tag@);
                assert(base + task@.tags.take(j + 1) =~= next);
                seen.to_multiset_ensures();
                assert(next.to_multiset() =~= seen.to_multiset().insert(tag@));
                assert(next.len() <= (base + task@.tags).len());
            }
            let ghost old_counts = counts@;
            let mut k: usize = 0;
            while k < counts.len() && counts[k].0 != *tag
                invariant
                    k <= counts@.len(),
                    forall|m: int| 0 <= m < k ==> (#[trigger] counts@[m]).0@ != tag@,
                decreases counts@.len() - k,
            {
                k += 1;
            }
            if k < counts.len() {
                let c = counts[k].1;
                let name = counts[k].0.clone();
                counts.set(k, (name, c + 1));
            } else {
                counts.push((tag.clone(), 1));
            }
            proof {
                seen = next;
                assert forall|m: int| 0 <= m < old_counts.len() implies (#[trigger] counts@[m]).0@ == old_counts[m].0@ by {}
                assert forall|x: Seq<char>| seen.to_multiset().count(x) > 0 implies exists|m: int| 0 <= m < counts@.len() && (#[trigger] counts@[m]).0@ == x by {
                    if x == tag@ {
                        if k < old_counts.len() {
                            assert(counts@[k as int].0@ == x);
                        } else {
                            assert(counts@[old_counts.len() as int].0@ == x);
                        }
                    } else {
                        let m = choose|m: int| 0 <= m < old_counts.len() && (#[trigger] old_counts[m]).0@ == x;
                        assert(counts@[m].0@ == x);
                    }
                }
            }
            j += 1;
        }
        proof {
            assert(task@.tags.take(task@.tags.len() as int) =~= task@.tags);
        }
        i += 1;
    }
    assert(ts.take(tasks@.len() as int) =~= ts);
    counts
}

proof fn lemma_all_tags_prefix_len(ts: Seq<TaskView>, i: int)
    requires
        0 <= i <= ts.len(),
    ensures
        all_tags(ts.take(i)).len() <= all_tags(ts).len(),
    decreases ts.len() - i,
{
    if i < ts.len() {
        lemma_all_tags_prefix_len(ts, i + 1);
        assert(ts.take(i + 1) =~= ts.take(i).push(ts[i]));
        lemma_all_tags_push(ts.take(i), ts[i]);
    } else {
        assert(ts.take(i) =~= ts);
    }
}

/// The index of the best-ranked entry among distinct-tag entries.
fn best_entry(v: &Vec<(String, usize)>) -> (b: usize)
    requires
        v@.len() > 0,
        forall|a: int, c: int| 0 <= a < c < v@.len() ==> (#[trigger] v@[a]).0@ != (#[trigger] v@[c]).0@,
    ensures
        b < v@.len(),
        forall|k: int| 0 <= k < v@.len() && k != b ==> ranks_before(entry_views(v@)[b as int], #[trigger] entry_views(v@)[k]),
{
    let ghost ev = entry_views(v@);
    let mut b: usize = 0;
    let mut j: usize = 1;
    while j < v.len()
        invariant
            ev == entry_views(v@),
            forall|a: int, c: int| 0 <= a < c < v@.len() ==> (#[trigger] v@[a]).0@ != (#[trigger] v@[c]).0@,
            b < j <= v@.len(),
            forall|k: int| 0 <= k < j && k != b ==> ranks_before(ev[b as int], #[trigger] ev[k]),
        decreases v@.len() - j,
    {
        if ranks_before_exec(&v[j], &v[b]) {
            proof {
                assert forall|k: int| 0 <= k < j + 1 && k != j implies ranks_before(ev[j as int], #[trigger] ev[k]) by {
                    if k != b {
                        lemma_ranks_transitive(ev[j as int], ev[b as int], ev[k]);
                    }
                }
            }
            b = j;
        } else {
            proof {
                assert(ev[b as int].0 != ev[j as int].0) by {
                    if b < j {
                        assert(v@[b as int].0@ != v@[j as int].0@);
                    }
                }
                lemma_ranks_total(ev[b as int], ev[j as int]);
            }
        }
        j += 1;
    }
    b
}

/// The top five entries by rank, best first.
fn top_five(counts: Vec<(String, usize)>) -> (r: Vec<(String, usize)>)
    requires
        forall|a: int, c: int| 0 <= a < c < counts@.len() ==> (#[trigger] counts@[a]).0@ != (#[trigger] counts@[c]).0@,
    ensures
        r@.len() <= 5,
        forall|i: int, j: int| 0 <= i < j < r@.len() ==> ranks_before(#[trigger] entry_views(r@)[i], #[trigger] entry_views(r@)[j]),
        forall|i: int| 0 <= i < r@.len() ==> entry_views(counts@).contains(#[trigger] entry_views(r@)[i]),
        forall|e: (Seq<char>, int)| #[trigger] entry_views(counts@).contains(e) ==> entry_views(r@).contains(e)
            || (r@.len() == 5 && ranks_before(entry_views(r@)[4], e)),
{
    let ghost all = entry_views(counts@);
    let mut rest = counts;
    let mut top: Vec<(String, usize)> = Vec::new();
    assert(entry_views(rest@) == all);
    while top.len() < 5 && rest.len() > 0
        invariant
            top@.len() <= 5,
            forall|a: int, c: int| 0 <= a < c < rest@.len() ==> (#[trigger] rest@[a]).0@ != (#[trigger] rest@[c]).0@,
            forall|i: int, j: int| 0 <= i < j < top@.len() ==> ranks_before(#[trigger] entry_views(top@)[i], #[trigger] entry_views(top@)[j]),
            forall|i: int, k: int| 0 <= i < top@.len() && 0 <= k < rest@.len() ==> ranks_before(#[trigger] entry_views(top@)[i], #[trigger] entry_views(rest@)[k]),
            forall|i: int| 0 <= i < top@.len() ==> all.contains(#[trigger] entry_views(top@)[i]),
            forall|k: int| 0 <= k < rest@.len() ==> all.contains(#[trigger] entry_views(rest@)[k]),
            forall|e: (Seq<char>, int)| #[trigger] all.contains(e) ==> entry_views(top@).contains(e) || entry_views(rest@).contains(e),
        decreases rest@.len(),
    {
        let b = best_entry(&rest);
        let ghost old_rest = entry_views(rest@);
        let ghost old_top = entry_views(top@);
        let ghost old_rest_raw = rest@;
        let e = rest.remove(b);
        top.push(e);
        proof {
            let best = old_rest[b as int];
            assert(entry_views(top@) =~= old_top.push(best));
            assert(entry_views(rest@) =~= old_rest.remove(b as int));
            assert forall|a: int, c: int| 0 <= a < c < rest@.len() implies (#[trigger] rest@[a]).0@ != (#[trigger] rest@[c]).0@ by {
                let a2 = if a < b { a } else { a + 1 };
                let c2 = if c < b { c } else { c + 1 };
                assert(rest@[a] == old_rest_raw[a2]);
                assert(rest@[c] == old_rest_raw[c2]);
            }
            assert forall|i: int, k: int| 0 <= i < top@.len() && 0 <= k < rest@.len() implies ranks_before(#[trigger] entry_views(top@)[i], #[trigger] entry_views(rest@)[k]) by {
                let k2 = if k < b { k } else { k + 1 };
                assert(entry_views(rest@)[k] == old_rest[k2]);
                if i < old_top.len() {
                    assert(entry_views(top@)[i] == old_top[i]);
                } else {
                    assert(entry_views(top@)[i] == best);
                }
            }
            assert forall|i: int, j: int| 0 <= i < j < top@.len() implies ranks_before(#[trigger] entry_views(top@)[i], #[trigger] entry_views(top@)[j]) by {
                assert(entry_views(top@)[i] == old_top[i]);
                if j < old_top.len() {
                    assert(entry_views(top@)[j] == old_top[j]);
                } else {
                    assert(entry_views(top@)[j] == best);
                }
            }
            assert forall|i: int| 0 <= i < top@.len() implies all.contains(#[trigger] entry_views(top@)[i]) by {
                if i < old_top.len() {
                    assert(entry_views(top@)[i] == old_top[i]);
                } else {
                    assert(entry_views(top@)[i] == best);
                }
            }
            assert forall|k: int| 0 <= k < rest@.len() implies all.contains(#[trigger] entry_views(rest@)[k]) by {
                let k2 = if k < b { k } else { k + 1 };
                assert(entry_views(rest@)[k] == old_rest[k2]);
            }
            assert forall|e: (Seq<char>, int)| #[trigger] all.contains(e) implies entry_views(top@).contains(e) || entry_views(rest@).contains(e) by {
                if old_top.contains(e) {
                    let i = choose|i: int| 0 <= i < old_top.len() && old_top[i] == e;
                    assert(entry_views(top@)[i] == e);
                } else {
                    let m = choose|m: int| 0 <= m < old_rest.len() && old_rest[m] == e;
                    if m == b {
                        assert(entry_views(top@)[old_top.len() as int] == e);
                    } else {
                        let m2 = if m < b { m } else { m - 1 };
                        assert(entry_views(rest@)[m2] == e);
                    }
                }
            }
        }
    }
    proof {
        assert forall|e: (Seq<char>, int)| #[trigger] all.contains(e) implies entry_views(top@).contains(e)
            || (top@.len() == 5 && ranks_before(entry_views(top@)[4], e)) by {
            if !entry_views(top@).contains(e) {
                let m = choose|m: int| 0 <= m < rest@.len() && entry_views(rest@)[m] == e;
                assert(ranks_before(entry_views(top@)[4], entry_views(rest@)[m]));
            }
        }
    }
    top
}

/// The report numbers over the shipped tasks: how many, how many link a commit, and
/// the top tags.
pub fn compute_stats(tasks: &[&Task]) -> (r: ReportStats)
    requires
        all_tags(task::ref_views(tasks@)).len() <= usize::MAX,
    ensures
        r.shipped == tasks@.len(),
        r.linked_commits == task::ref_views(tasks@).filter(has_link()).len(),
        top_tags_of(entry_views(r.top_tags@), task::ref_views(tasks@)),
{
    let ghost ts = task::ref_views(tasks@);
    let counts = count_tags(tasks);
    let ghost cv = entry_views(counts@);
    let top = top_five(counts);
    proof {
        let tv = entry_views(top@);
        assert forall|i: int| 0 <= i < tv.len() implies #[trigger] tv[i].1 == tag_count(ts, tv[i].0) && tv[i].1 > 0 by {
            assert(cv.contains(tv[i]));
            let k = choose|k: int| 0 <= k < cv.len() && cv[k] == tv[i];
            assert(cv[k] == (counts@[k].0@, counts@[k].1 as int));
        }
        assert forall|x: Seq<char>|
            tag_count(ts, x) > 0 && !(exists|i: int| 0 <= i < tv.len() && #[trigger] tv[i].0 == x) implies tv.len() == 5
                && ranks_before(tv[4], (x, tag_count(ts, x) as int)) by {
            let k = choose|k: int| 0 <= k < counts@.len() && (#[trigger] counts@[k]).0@ == x;
            assert(cv[k] == (x, tag_count(ts, x) as int));
            assert(cv.contains(cv[k]));
            if tv.contains(cv[k]) {
                let i = choose|i: int| 0 <= i < tv.len() && tv[i] == cv[k];
                assert(tv[i].0 == x);
            }
        }
    }
    let mut linked: usize = 0;
    let mut i: usize = 0;
    while i < tasks.len()
        invariant
            ts == task::ref_views(tasks@),
            i <= tasks@.len(),
            linked == ts.take(i as int).filter(has_link()).len(),
            linked <= i,
        decreases tasks@.len() - i,
    {
        proof {
            assert(ts.take(i + 1) =~= ts.take(i as int).push(tasks@[i as int]@));
            ts.take(i as int).lemma_filter_push(tasks@[i as int]@, has_link());
        }
        if tasks[i].linked_commit.is_some() {
            linked += 1;
        }
        i += 1;
    }
    assert(ts.take(tasks@.len() as int) =~= ts);
    ReportStats { shipped: tasks.len(), linked_commits: linked, top_tags: top }
}

/// A tag with its count in the text report: `name (count)`.
pub open spec fn tag_entry_text(e: (Seq<char>, int)) -> Seq<char> {
    e.0 + " ("@ + text::decimal(e.1 as nat) + ")"@
}

/// The "Focus" line's list of tags.
pub open spec fn focus_text(top: Seq<(Seq<char>, int)>) -> Seq<char> {
    text::joined(top.map_values(|e: (Seq<char>, int)| tag_entry_text(e)), ", "@)
}

/// A task's tags in a table cell: comma-separated, or `-` without tags.
pub open spec fn tags_cell(tags: Seq<Seq<char>>) -> Seq<char> {
    if tags.len() == 0 {
        "-"@
    } else {
        text::joined(tags, ", "@)
    }
}

/// A task's commit in a table cell: hash and subject, or `-`.
pub open spec fn commit_cell(c: Option<LinkedCommitView>) -> Seq<char> {
    match c {
        Some(c) => c.sha + " "@ + c.message,
        None => "-"@,
    }
}

/// A task's row in the text report.
pub open spec fn text_row(t: TaskView) -> Seq<Seq<char>> {
    seq![text::short_id_of(t.id), t.title, tags_cell(t.tags), commit_cell(t.linked_commit)]
}

pub open spec fn text_header() -> Seq<Seq<char>> {
    seq!["ID"@, "Title"@, "Tags"@, "Commit"@]
}

/// The text report: title, counts, focus tags and a table of the shipped tasks.
pub open spec fn text_report(
    shipped: Seq<TaskView>,
    shipped_n: int,
    linked: int,
    top: Seq<(Seq<char>, int)>,
    period: ReportPeriod,
    color: ColorMode,
) -> Seq<char> {
    let head = color.highlight_spec("What I shipped — "@ + label_of(period)) + "\n"@ + color.dim_spec(
        text::decimal(shipped_n as nat) + " tasks · "@ + text::decimal(linked as nat) + " linked commits"@,
    ) + "\n\n"@ + if top.len() > 0 {
        "Focus: "@ + color.info_spec(focus_text(top)) + "\n\n"@
    } else {
        Seq::empty()
    };
    if shipped.len() == 0 {
        head + color.dim_spec("No shipped tasks in this period."@) + "\n"@
    } else {
        head + table::spec_table_text(text_header(), shipped.map_values(|t: TaskView| text_row(t))) + "\n"@
    }
}

/// Whether every task's identifier can be shortened for display.
pub open spec fn ids_sliceable(ts: Seq<TaskView>) -> bool {
    forall|i: int| 0 <= i < ts.len() ==> text::id_sliceable(#[trigger] ts[i].id)
}

fn tag_entries(top: &Vec<(String, usize)>, markdown: bool) -> (r: Vec<String>)
    ensures
        text::views(r@) == if markdown {
            entry_views(top@).map_values(|e: (Seq<char>, int)| md_tag_entry(e))
        } else {
            entry_views(top@).map_values(|e: (Seq<char>, int)| tag_entry_text(e))
        },
{
    let mut out: Vec<String> = Vec::new();
    let mut i: usize = 0;
    while i < top.len()
        invariant
            i <= top@.len(),
            out@.len() == i,
            forall|k: int| 0 <= k < i ==> #[trigger] out@[k]@ == if markdown {
                md_tag_entry(entry_views(top@)[k])
            } else {
                tag_entry_text(entry_views(top@)[k])
            },
        decreases top@.len() - i,
    {
        let count = text::decimal_text(top[i].1);
        let mut e = if markdown { String::from_str("`") } else { String::new() };
        e.append(top[i].0.as_str());
        if markdown {
            e.append("` (");
        } else {
            e.append(" (");
        }
        e.append(count.as_str());
        e.append(")");
        proof {
            let ev = entry_views(top@)[i as int];
            assert(ev == (top@[i as int].0@, top@[i as int].1 as int));
            if markdown {
                assert(e@ =~= md_tag_entry(ev));
            } else {
                assert(e@ =~= tag_entry_text(ev));
            }
        }
        out.push(e);
        i += 1;
    }
    proof {
        if markdown {
            assert(text::views(out@) =~= entry_views(top@).map_values(|e: (Seq<char>, int)| md_tag_entry(e)));
        } else {
            assert(text::views(out@) =~= entry_views(top@).map_values(|e: (Seq<char>, int)| tag_entry_text(e)));
        }
    }
    out
}

fn tags_cell_text(tags: &Vec<String>) -> (r: String)
    ensures
        r@ == tags_cell(tags.deep_view()),
{
    if tags.len() == 0 {
        String::from_str("-")
    } else {
        let r = text::join(tags, ", ");
        assert(text::views(tags@) =~= tags.deep_view());
        r
    }
}

fn commit_cell_text(c: &Option<task::LinkedCommit>) -> (r: String)
    ensures
        r@ == commit_cell(c.deep_view()),
{
    match c {
        Some(c) => {
            let mut s = c.sha.clone();
            s.append(" ");
            s.append(c.message.as_str());
            s
        },
        None => String::from_str("-"),
    }
}

fn text_rows(shipped: &[&Task]) -> (r: Vec<Vec<String>>)
    requires
        ids_sliceable(task::ref_views(shipped@)),
    ensures
        r.deep_view() == task::ref_views(shipped@).map_values(|t: TaskView| text_row(t)),
{
    let ghost ts = task::ref_views(shipped@);
    let mut rows: Vec<Vec<String>> = Vec::new();
    let mut i: usize = 0;
    while i < shipped.len()
        invariant
            ts == task::ref_views(shipped@),
            ids_sliceable(ts),
            i <= shipped@.len(),
            rows@.len() == i,
            forall|k: int| 0 <= k < i ==> (#[trigger] rows@[k]).deep_view() == text_row(ts[k]),
        decreases shipped@.len() - i,
    {
        let t = shipped[i];
        assert(ts[i as int] == t@);
        assert(text::id_sliceable(ts[i as int].id));
        let mut row: Vec<String> = Vec::new();
        row.push(text::short_id(t.id.as_str()));
        row.push(t.title.clone());
        row.push(tags_cell_text(&t.tags));
        row.push(commit_cell_text(&t.linked_commit));
        assert(row.deep_view() =~= text_row(t@));
        rows.push(row);
        i += 1;
    }
    assert(rows.deep_view() =~= ts.map_values(|t: TaskView| text_row(t)));
    rows
}

/// The report as colored text for a terminal.
pub fn render_text(shipped: &[&Task], stats: &ReportStats, period: ReportPeriod, color: ColorMode) -> (r: String)
    requires
        ids_sliceable(task::ref_views(shipped@)),
    ensures
        r@ == text_report(task::ref_views(shipped@), stats.shipped as int, stats.linked_commits as int,
            entry_views(stats.top_tags@), period, color),
{
    let mut title = String::from_str("What I shipped — ");
    title.append(period.label());
    let mut out = color.highlight(title.as_str());
    out.append("\n");
    let mut counts = text::decimal_text(stats.shipped);
    counts.append(" tasks · ");
    let linked = text::decimal_text(stats.linked_commits);
    counts.append(linked.as_str());
    counts.append(" linked commits");
    let dimmed = color.dim(counts.as_str());
    out.append(dimmed.as_str());
    out.append("\n\n");
    let ghost head_base = out@;
    if stats.top_tags.len() > 0 {
        let entries = tag_entries(&stats.top_tags, false);
        let joined = text::join(&entries, ", ");
        let info = color.info(joined.as_str());
        out.append("Focus: ");
        out.append(info.as_str());
        out.append("\n\n");
    }
    let ghost head = out@;
    proof {
        let top = entry_views(stats.top_tags@);
        assert(head =~= color.highlight_spec("What I shipped — "@ + label_of(period)) + "\n"@ + color.dim_spec(
            text::decimal(stats.shipped as nat) + " tasks · "@ + text::decimal(stats.linked_commits as nat) + " linked commits"@,
        ) + "\n\n"@ + if top.len() > 0 {
            "Focus: "@ + color.info_spec(focus_text(top)) + "\n\n"@
        } else {
            Seq::empty()
        });
    }
    if shipped.len() == 0 {
        let none = color.dim("No shipped tasks in this period.");
        out.append(none.as_str());
        out.append("\n");
        return out;
    }
    let header = vec![String::from_str("ID"), String::from_str("Title"), String::from_str("Tags"), String::from_str("Commit")];
    assert(header.deep_view() =~= text_header());
    let rows = text_rows(shipped);
    let drawn = table::render_table(&header, &rows);
    out.append(drawn.as_str());
    out.append("\n");
    out
}

/// A tag with its count in the Markdown report: `` `name` (count) ``.
pub open spec fn md_tag_entry(e: (Seq<char>, int)) -> Seq<char> {
    "`"@ + e.0 + "` ("@ + text::decimal(e.1 as nat) + ")"@
}

/// A tag in code style.
pub open spec fn md_tag(t: Seq<char>) -> Seq<char> {
    "`"@ + t + "`"@
}

/// A task's completion date in the Markdown report, `?` when unknown.
pub open spec fn md_date(c: Option<Timestamp>) -> Seq<char> {
    match c {
        Some(c) => time::spec_utc_format(c.secs_spec(), c.nanos_spec(), "%Y-%m-%d"@),
        None => "?"@,
    }
}

/// One shipped task in the Markdown report.
pub open spec fn md_block(t: TaskView) -> Seq<char> {
    "### "@ + t.title + " ("@ + md_date(t.completed_at) + ")\n\n"@ + (if t.tags.len() > 0 {
        "**Tags:** "@ + text::joined(t.tags.map_values(|x: Seq<char>| md_tag(x)), " "@) + "\n\n"@
    } else {
        Seq::empty()
    }) + (match t.note {
        Some(n) => n + "\n\n"@,
        None => Seq::empty(),
    }) + (match t.linked_commit {
        Some(c) => "**Commit:** `"@ + c.sha + "` — "@ + c.message + "\n\n"@,
        None => Seq::empty(),
    })
}

pub open spec fn md_blocks(ts: Seq<TaskView>) -> Seq<char>
    decreases ts.len(),
{
    if ts.len() == 0 {
        Seq::empty()
    } else {
        md_blocks(ts.drop_last()) + md_block(ts.last())
    }
}

/// The Markdown report, generated at `now`.
pub open spec fn markdown_report(
    shipped: Seq<TaskView>,
    shipped_n: int,
    linked: int,
    top: Seq<(Seq<char>, int)>,
    period: ReportPeriod,
    now: Timestamp,
) -> Seq<char> {
    "# What I shipped — "@ + label_of(period) + "\n\n"@ + "_Generated "@ + time::spec_utc_format(
        now.secs_spec(),
        now.nanos_spec(),
        "%Y-%m-%d %H:%M UTC"@,
    ) + "_\n\n"@ + "## Summary\n\n"@ + "- **Shipped:** "@ + text::decimal(shipped_n as nat) + "\n"@
        + "- **Linked commits:** "@ + text::decimal(linked as nat) + "\n"@ + (if top.len() > 0 {
        "- **Focus areas:** "@ + text::joined(top.map_values(|e: (Seq<char>, int)| md_tag_entry(e)), ", "@) + "\n"@
    } else {
        Seq::empty()
    }) + "\n## Shipped\n\n"@ + if shipped.len() == 0 {
        "_No shipped tasks in this period._\n"@
    } else {
        md_blocks(shipped)
    }
}

fn md_block_text(t: &Task) -> (r: String)
    ensures
        r@ == md_block(t@),
{
    let mut out = String::from_str("### ");
    out.append(t.title.as_str());
    out.append(" (");
    match &t.completed_at {
        Some(c) => {
            let d = time::format_date(c);
            out.append(d.as_str());
        },
        None => out.append("?"),
    }
    out.append(")\n\n");
    let ghost a = out@;
    if t.tags.len() > 0 {
        let mut coded: Vec<String> = Vec::new();
        let mut i: usize = 0;
        while i < t.tags.len()
            invariant
                i <= t.tags@.len(),
                coded@.len() == i,
                forall|k: int| 0 <= k < i ==> #[trigger] coded@[k]@ == md_tag(t.tags@[k]@),
            decreases t.tags@.len() - i,
        {
            let mut c = String::from_str("`");
            c.append(t.tags[i].as_str());
            c.append("`");
            coded.push(c);
            i += 1;
        }
        assert(text::views(coded@) =~= t@.tags.map_values(|x: Seq<char>| md_tag(x)));
        let joined = text::join(&coded, " ");
        out.append("**Tags:** ");
        out.append(joined.as_str());
        out.append("\n\n");
    }
    let ghost b = out@;
    match &t.note {
        Some(n) => {
            out.append(n.as_str());
            out.append("\n\n");
        },
        None => {},
    }
    let ghost c = out@;
    match &t.linked_commit {
        Some(l) => {
            out.append("**Commit:** `");
            out.append(l.sha.as_str());
            out.append("` — ");
            out.append(l.message.as_str());
            out.append("\n\n");
        },
        None => {},
    }
    assert(out@ =~= md_block(t@));
    out
}

/// The report as Markdown, stamped with the instant `now`.
pub fn render_markdown_at(shipped: &[&Task], stats: &ReportStats, period: ReportPeriod, now: Timestamp) -> (r: String)
    ensures
        r@ == markdown_report(task::ref_views(shipped@), stats.shipped as int, stats.linked_commits as int,
            entry_views(stats.top_tags@), period, now),
{
    let mut out = String::from_str("# What I shipped — ");
    out.append(period.label());
    out.append("\n\n");
    out.append("_Generated ");
    let stamp = time::format_minute(&now);
    out.append(stamp.as_str());
    out.append("_\n\n");
    out.append("## Summary\n\n");
    out.append("- **Shipped:** ");
    let n = text::decimal_text(stats.shipped);
    out.append(n.as_str());
    out.append("\n");
    out.append("- **Linked commits:** ");
    let l = text::decimal_text(stats.linked_commits);
    out.append(l.as_str());
    out.append("\n");
    if stats.top_tags.len() > 0 {
        out.append("- **Focus areas:** ");
        let entries = tag_entries(&stats.top_tags, true);
        let joined = text::join(&entries, ", ");
        out.append(joined.as_str());
        out.append("\n");
    }
    out.append("\n## Shipped\n\n");
    let ghost head = out@;
    if shipped.len() == 0 {
        out.append("_No shipped tasks in this period._\n");
        return out;
    }
    let ghost ts = task::ref_views(shipped@);
    let mut i: usize = 0;
    assert(ts.take(0) =~= Seq::<TaskView>::empty());
    while i < shipped.len()
        invariant
            ts == task::ref_views(shipped@),
            i <= shipped@.len(),
            out@ == head + md_blocks(ts.take(i as int)),
        decreases shipped@.len() - i,
    {
        let block = md_block_text(shipped[i]);
        out.append(block.as_str());
        proof {
            assert(ts.take(i + 1).drop_last() =~= ts.take(i as int));
            assert(ts.take(i + 1).last() == shipped@[i as int]@);
            assert(out@ =~= head + md_blocks(ts.take(i + 1)));
        }
        i += 1;
    }
    assert(ts.take(shipped@.len() as int) =~= ts);
    out
}

/// The report as Markdown, stamped with the current instant.
pub fn render_markdown(shipped: &[&Task], stats: &ReportStats, period: ReportPeriod) -> (r: String)
    ensures
        exists|now: Timestamp| r@ == markdown_report(task::ref_views(shipped@), stats.shipped as int,
            stats.linked_commits as int, entry_views(stats.top_tags@), period, now),
{
    let now = time::now();
    render_markdown_at(shipped, stats, period, now)
}

} // verus!
