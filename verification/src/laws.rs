//! Properties that hold across the library's operations.

use vstd::prelude::*;

use crate::commands;
use crate::order;
use crate::report;
use crate::storage;
use crate::task::{self, TaskStatus, TaskView};
use crate::table;
use crate::text;
use crate::time;
use crate::time::Timestamp;

verus! {

/// Every task is either open or done: the two counts of `count_by_status` add up to the
/// number of tasks.
pub proof fn law_status_counts_partition(ts: Seq<TaskView>)
    ensures
        ts.filter(storage::is_open()).len() + ts.filter(storage::is_done()).len() == ts.len(),
    decreases ts.len(),
{
    if ts.len() > 0 {
        law_status_counts_partition(ts.drop_last());
        assert(ts.drop_last().push(ts.last()) =~= ts);
        ts.drop_last().lemma_filter_push(ts.last(), storage::is_open());
        ts.drop_last().lemma_filter_push(ts.last(), storage::is_done());
    } else {
        reveal_with_fuel(Seq::filter, 1);
    }
}

proof fn lemma_filter_single<A>(s: Seq<A>, pred: spec_fn(A) -> bool, k: int)
    requires
        0 <= k < s.len(),
        pred(s[k]),
        forall|j: int| 0 <= j < s.len() && j != k ==> !pred(#[trigger] s[j]),
    ensures
        s.filter(pred) == seq![s[k]],
    decreases s.len(),
{
    if k == s.len() - 1 {
        lemma_filter_none(s.drop_last(), pred);
        s.drop_last().lemma_filter_push(s.last(), pred);
        assert(s.drop_last().push(s.last()) =~= s);
        assert(Seq::<A>::empty().push(s[k]) =~= seq![s[k]]);
    } else {
        lemma_filter_single(s.drop_last(), pred, k);
        s.drop_last().lemma_filter_push(s.last(), pred);
        assert(s.drop_last().push(s.last()) =~= s);
    }
}

proof fn lemma_filter_none<A>(s: Seq<A>, pred: spec_fn(A) -> bool)
    requires
        forall|j: int| 0 <= j < s.len() ==> !pred(#[trigger] s[j]),
    ensures
        s.filter(pred) == Seq::<A>::empty(),
    decreases s.len(),
{
    if s.len() == 0 {
        reveal_with_fuel(Seq::filter, 1);
    } else {
        lemma_filter_none(s.drop_last(), pred);
        s.drop_last().lemma_filter_push(s.last(), pred);
        assert(s.drop_last().push(s.last()) =~= s);
    }
}

/// A query that is a prefix of exactly one task's identifier refers to that task,
/// whatever the titles say.
pub proof fn law_unique_id_prefix_resolves(ts: Seq<TaskView>, q: Seq<char>, k: int)
    requires
        0 <= k < ts.len(),
        text::has_prefix(ts[k].id, q),
        forall|j: int| 0 <= j < ts.len() && j != k ==> !text::has_prefix(#[trigger] ts[j].id, q),
    ensures
        task::resolve_matches(ts, q) == seq![ts[k]],
{
    assert(text::has_prefix(ts[k].id, q));
    lemma_filter_single(ts, task::id_pred(q), k);
}

/// After a task is added, looking it up by its full identifier finds it, provided no
/// stored task's identifier begins with that identifier.
pub proof fn law_added_task_is_found(before: Seq<TaskView>, t: TaskView)
    requires
        forall|i: int| 0 <= i < before.len() ==> !text::has_prefix(#[trigger] before[i].id, t.id),
    ensures
        task::resolve_matches(before.push(t), t.id) == seq![t],
{
    let after = before.push(t);
    assert(after[before.len() as int] == t);
    assert(t.id.take(t.id.len() as int) =~= t.id);
    assert forall|j: int| 0 <= j < after.len() && j != before.len() implies !text::has_prefix(#[trigger] after[j].id, t.id) by {
        assert(after[j] == before[j]);
    }
    law_unique_id_prefix_resolves(after, t.id, before.len() as int);
}

/// Completing a task through the store changes that one task only: it becomes done at
/// the given instant with the given link, and every other task stays as it was.
pub proof fn law_mark_done_changes_one_task(
    before: Seq<TaskView>,
    id: Seq<char>,
    at: Timestamp,
    linked: Option<task::LinkedCommitView>,
    p: int,
)
    requires
        0 <= p < before.len(),
        before[p].id == id,
        forall|k: int| 0 <= k < p ==> #[trigger] before[k].id != id,
    ensures
        storage::mark_first_with_id(before, id, at, linked).len() == before.len(),
        storage::mark_first_with_id(before, id, at, linked)[p].status == TaskStatus::Done,
        storage::mark_first_with_id(before, id, at, linked)[p].completed_at == Some(at),
        storage::mark_first_with_id(before, id, at, linked)[p].id == id,
        storage::mark_first_with_id(before, id, at, linked)[p] == task::completed(before[p], at, linked),
        forall|k: int| 0 <= k < before.len() && k != p ==> #[trigger] storage::mark_first_with_id(before, id, at, linked)[k] == before[k],
{
    let q = storage::first_with_id(before, id);
    assert(0 <= q < before.len() && before[q].id == id && forall|k: int| 0 <= k < q ==> #[trigger] before[k].id != id);
    if q < p {
        assert(before[q].id != id);
    } else if q > p {
        assert(before[p].id != id);
    }
}

proof fn lemma_filter_len_update<A>(s: Seq<A>, pred: spec_fn(A) -> bool, p: int, x: A)
    requires
        0 <= p < s.len(),
    ensures
        s.update(p, x).filter(pred).len() + (if pred(s[p]) { 1int } else { 0 })
            == s.filter(pred).len() + (if pred(x) { 1int } else { 0 }),
    decreases s.len(),
{
    let u = s.update(p, x);
    assert(u.drop_last().push(u.last()) =~= u);
    assert(s.drop_last().push(s.last()) =~= s);
    u.drop_last().lemma_filter_push(u.last(), pred);
    s.drop_last().lemma_filter_push(s.last(), pred);
    if p < s.len() - 1 {
        lemma_filter_len_update(s.drop_last(), pred, p, x);
        assert(u.drop_last() =~= s.drop_last().update(p, x));
    } else {
        assert(u.drop_last() =~= s.drop_last());
    }
}

/// Completing a task that was open moves it from the open count to the done count;
/// completing one that was already done changes neither count.
pub proof fn law_mark_done_moves_one_count(
    before: Seq<TaskView>,
    id: Seq<char>,
    at: Timestamp,
    linked: Option<task::LinkedCommitView>,
    p: int,
)
    requires
        0 <= p < before.len(),
        before[p].id == id,
        forall|k: int| 0 <= k < p ==> #[trigger] before[k].id != id,
    ensures
        ({
            let after = storage::mark_first_with_id(before, id, at, linked);
            let moved: int = if before[p].status == TaskStatus::Open { 1 } else { 0 };
            &&& after.filter(storage::is_done()).len() == before.filter(storage::is_done()).len() + moved
            &&& after.filter(storage::is_open()).len() + moved == before.filter(storage::is_open()).len()
        }),
{
    law_mark_done_changes_one_task(before, id, at, linked, p);
    let q = storage::first_with_id(before, id);
    assert(0 <= q < before.len() && before[q].id == id && forall|k: int| 0 <= k < q ==> #[trigger] before[k].id != id);
    if q < p {
        assert(before[q].id != id);
    } else if q > p {
        assert(before[p].id != id);
    }
    let x = task::completed(before[p], at, linked);
    lemma_filter_len_update(before, storage::is_done(), p, x);
    lemma_filter_len_update(before, storage::is_open(), p, x);
}

/// The order a task file is written in: sorted by creation instant, holding exactly the
/// tasks of the store.
pub proof fn law_saved_order(ts: Seq<TaskView>)
    ensures
        order::sorted_by(order::sort_by_key(ts, storage::created_key()), storage::created_key()),
        order::sort_by_key(ts, storage::created_key()).to_multiset() == ts.to_multiset(),
{
    order::lemma_sort_by_key(ts, storage::created_key());
}

/// A report covers only done tasks completed within its period (up to `now`), most
/// recently completed first, and each of them comes from the task list.
pub proof fn law_report_covers_shipped(ts: Seq<TaskView>, period: report::ReportPeriod, now: Timestamp)
    ensures
        forall|i: int| 0 <= i < report::shipped_in(ts, period, now).len() ==> (#[trigger] report::shipped_in(ts, period, now)[i]).status == TaskStatus::Done,
        period != report::ReportPeriod::All ==> forall|i: int| 0 <= i < report::shipped_in(ts, period, now).len() ==> {
            let t = #[trigger] report::shipped_in(ts, period, now)[i];
            &&& t.completed_at is Some
            &&& report::start_key(period, now)->0 <= t.completed_at->0.key()
            &&& t.completed_at->0.key() <= now.key()
        },
        forall|i: int, j: int| 0 <= i < j < report::shipped_in(ts, period, now).len() ==> report::completed_key()(#[trigger] report::shipped_in(ts, period, now)[i]) >= report::completed_key()(#[trigger] report::shipped_in(ts, period, now)[j]),
        forall|i: int| 0 <= i < report::shipped_in(ts, period, now).len() ==> ts.contains(#[trigger] report::shipped_in(ts, period, now)[i]),
{
    broadcast use vstd::seq_lib::group_to_multiset_ensures;
    let pred = report::shipped_pred(report::start_key(period, now), now);
    let f = ts.filter(pred);
    let sorted = order::sort_by_key(f, report::completed_key());
    order::lemma_sort_by_key(f, report::completed_key());
    let r = sorted.reverse();
    assert(r == report::shipped_in(ts, period, now));
    assert forall|i: int| 0 <= i < r.len() implies pred(#[trigger] r[i]) && ts.contains(r[i]) by {
        let x = r[i];
        assert(x == sorted[sorted.len() - 1 - i]);
        assert(sorted.to_multiset().count(x) > 0);
        assert(f.to_multiset().count(x) > 0);
        assert(f.contains(x));
        let m = choose|m: int| 0 <= m < f.len() && f[m] == x;
        ts.lemma_filter_pred(pred, m);
        ts.lemma_filter_contains_rev(pred, x);
    }
    assert forall|i: int, j: int| 0 <= i < j < r.len() implies report::completed_key()(#[trigger] r[i]) >= report::completed_key()(#[trigger] r[j]) by {
        assert(r[i] == sorted[sorted.len() - 1 - i]);
        assert(r[j] == sorted[sorted.len() - 1 - j]);
    }
    if period != report::ReportPeriod::All {
        assert forall|i: int| 0 <= i < r.len() implies {
            let t = #[trigger] r[i];
            &&& t.completed_at is Some
            &&& report::start_key(period, now)->0 <= t.completed_at->0.key()
            &&& t.completed_at->0.key() <= now.key()
        } by {
            assert(pred(r[i]));
        }
    }
}

/// With no status and no tags, a listing shows every task, in order.
pub proof fn law_unfiltered_listing_is_everything(ts: Seq<TaskView>)
    ensures
        ts.filter(storage::listing_pred(None, Seq::empty())) == ts,
    decreases ts.len(),
{
    if ts.len() == 0 {
        reveal_with_fuel(Seq::filter, 1);
    } else {
        law_unfiltered_listing_is_everything(ts.drop_last());
        ts.drop_last().lemma_filter_push(ts.last(), storage::listing_pred(None, Seq::empty()));
        assert(ts.drop_last().push(ts.last()) =~= ts);
    }
}

/// A board cursor that points into its column still does after any key, and a task to
/// complete is always one of the open tasks.
pub proof fn law_board_cursor_stays_in_columns(s: commands::BoardState, key: commands::BoardKey, open_len: nat, done_len: nat)
    requires
        commands::board_fits(s, open_len, done_len),
    ensures
        commands::board_fits(commands::board_next(s, key, open_len, done_len).0, open_len, done_len),
        commands::board_next(s, key, open_len, done_len).1 matches commands::BoardAction::MarkDone(i) ==> i < open_len,
{
}

/// Cursors pulled back into their columns point into them, whatever they were before.
pub proof fn law_board_clamp_fits(s: commands::BoardState, open_len: nat, done_len: nat)
    requires
        open_len <= usize::MAX,
        done_len <= usize::MAX,
    ensures
        commands::board_fits(commands::clamped(s, open_len, done_len), open_len, done_len),
{
}

/// A picked commit is always one of those offered.
pub proof fn law_selection_in_menu(r: crate::error::Result<Option<usize>>, input: Seq<char>, count: nat)
    requires
        commands::selection_meets(r, input, count),
    ensures
        r matches Ok(Some(i)) ==> i < count,
{
}

proof fn lemma_split_pieces_lack_sep(s: Seq<char>, sep: char)
    ensures
        forall|i: int, k: int| 0 <= i < text::split_on(s, sep).len() && 0 <= k < text::split_on(s, sep)[i].len()
            ==> #[trigger] text::split_on(s, sep)[i][k] != sep,
    decreases s.len(),
{
    if s.len() > 0 {
        lemma_split_pieces_lack_sep(s.drop_last(), sep);
        text::lemma_split_on_nonempty(s.drop_last(), sep);
        let init = text::split_on(s.drop_last(), sep);
        let r = text::split_on(s, sep);
        if s.last() != sep {
            assert forall|i: int, k: int| 0 <= i < r.len() && 0 <= k < r[i].len() implies #[trigger] r[i][k] != sep by {
                if i == init.len() - 1 {
                    if k < init.last().len() {
                        assert(r[i][k] == init[i][k]);
                    }
                } else {
                    assert(r[i] == init[i]);
                }
            }
        } else {
            assert forall|i: int, k: int| 0 <= i < r.len() && 0 <= k < r[i].len() implies #[trigger] r[i][k] != sep by {
                assert(r[i] == if i < init.len() { init[i] } else { Seq::<char>::empty() });
                if i < init.len() {
                    assert(r[i][k] == init[i][k]);
                }
            }
        }
    }
}

proof fn lemma_trim_start_suffix(s: Seq<char>)
    ensures
        exists|i: int| 0 <= i <= s.len() && text::trim_start(s) == s.skip(i),
        text::trim_start(s).len() > 0 ==> !text::is_ws(text::trim_start(s)[0]),
    decreases s.len(),
{
    if s.len() > 0 && text::is_ws(s[0]) {
        lemma_trim_start_suffix(s.drop_first());
        let i = choose|i: int| 0 <= i <= s.drop_first().len() && text::trim_start(s.drop_first()) == s.drop_first().skip(i);
        assert(s.drop_first().skip(i) =~= s.skip(i + 1));
    } else {
        assert(s.skip(0) =~= s);
    }
}

proof fn lemma_trim_end_prefix(s: Seq<char>)
    ensures
        exists|j: int| 0 <= j <= s.len() && text::trim_end(s) == s.take(j),
        text::trim_end(s).len() > 0 ==> !text::is_ws(text::trim_end(s).last()),
    decreases s.len(),
{
    if s.len() > 0 && text::is_ws(s.last()) {
        lemma_trim_end_prefix(s.drop_last());
        let j = choose|j: int| 0 <= j <= s.drop_last().len() && text::trim_end(s.drop_last()) == s.drop_last().take(j);
        assert(s.drop_last().take(j) =~= s.take(j));
    } else {
        assert(s.take(s.len() as int) =~= s);
    }
}

proof fn lemma_trim_end_keeps_first(s: Seq<char>)
    requires
        s.len() > 0,
        !text::is_ws(s[0]),
    ensures
        text::trim_end(s).len() > 0,
        text::trim_end(s)[0] == s[0],
    decreases s.len(),
{
    if text::is_ws(s.last()) {
        lemma_trim_end_keeps_first(s.drop_last());
    }
}

/// Trimming twice trims no more than trimming once, and a trimmed text is made of
/// characters of the original.
proof fn lemma_trimmed_clean(x: Seq<char>)
    ensures
        text::trimmed(text::trimmed(x)) == text::trimmed(x),
        forall|k: int| 0 <= k < text::trimmed(x).len() ==> exists|m: int| 0 <= m < x.len() && x[m] == #[trigger] text::trimmed(x)[k],
{
    lemma_trim_start_suffix(x);
    let a = text::trim_start(x);
    let i = choose|i: int| 0 <= i <= x.len() && a == x.skip(i);
    lemma_trim_end_prefix(a);
    let t = text::trim_end(a);
    let j = choose|j: int| 0 <= j <= a.len() && t == a.take(j);
    assert forall|k: int| 0 <= k < t.len() implies exists|m: int| 0 <= m < x.len() && x[m] == #[trigger] t[k] by {
        assert(t[k] == a[k]);
        assert(a[k] == x[k + i]);
    }
    if t.len() > 0 {
        lemma_trim_end_keeps_first(a);
        assert(text::trim_start(t) == t);
        lemma_trim_end_prefix(t);
        assert(!text::is_ws(t.last()));
        assert(text::trim_end(t) == t);
    } else {
        assert(text::trim_start(t) == t);
    }
}

proof fn lemma_nonempty_trimmed_members(pieces: Seq<Seq<char>>)
    ensures
        forall|i: int| 0 <= i < task::nonempty_trimmed(pieces).len() ==> {
            let t = #[trigger] task::nonempty_trimmed(pieces)[i];
            t.len() > 0 && exists|p: int| 0 <= p < pieces.len() && t == text::trimmed(pieces[p])
        },
    decreases pieces.len(),
{
    if pieces.len() > 0 {
        lemma_nonempty_trimmed_members(pieces.drop_last());
        let rest = task::nonempty_trimmed(pieces.drop_last());
        let r = task::nonempty_trimmed(pieces);
        assert forall|i: int| 0 <= i < r.len() implies {
            let t = #[trigger] r[i];
            t.len() > 0 && exists|p: int| 0 <= p < pieces.len() && t == text::trimmed(pieces[p])
        } by {
            if i < rest.len() {
                assert(r[i] == rest[i]);
                let p = choose|p: int| 0 <= p < pieces.drop_last().len() && rest[i] == text::trimmed(pieces.drop_last()[p]);
                assert(pieces.drop_last()[p] == pieces[p]);
            } else {
                assert(r[i] == text::trimmed(pieces.last()));
                assert(pieces.last() == pieces[pieces.len() - 1]);
            }
        }
    }
}

/// Every tag read from a comma-separated list is non-empty, has no whitespace at either
/// end and holds no comma.
pub proof fn law_parsed_tags_are_clean(raw: Seq<char>)
    ensures
        forall|i: int| 0 <= i < task::tags_of(raw).len() ==> {
            let t = #[trigger] task::tags_of(raw)[i];
            &&& t.len() > 0
            &&& text::trimmed(t) == t
            &&& forall|k: int| 0 <= k < t.len() ==> t[k] != ','
        },
{
    let pieces = text::split_on(raw, ',');
    lemma_nonempty_trimmed_members(pieces);
    lemma_split_pieces_lack_sep(raw, ',');
    assert forall|i: int| 0 <= i < task::tags_of(raw).len() implies {
        let t = #[trigger] task::tags_of(raw)[i];
        &&& t.len() > 0
        &&& text::trimmed(t) == t
        &&& forall|k: int| 0 <= k < t.len() ==> t[k] != ','
    } by {
        let t = task::tags_of(raw)[i];
        let p = choose|p: int| 0 <= p < pieces.len() && t == text::trimmed(pieces[p]);
        lemma_trimmed_clean(pieces[p]);
        assert forall|k: int| 0 <= k < t.len() implies t[k] != ',' by {
            let m = choose|m: int| 0 <= m < pieces[p].len() && pieces[p][m] == #[trigger] text::trimmed(pieces[p])[k];
            assert(pieces[p][m] != ',');
        }
    }
}

proof fn lemma_split_append_plain(a: Seq<char>, b: Seq<char>, sep: char)
    requires
        forall|k: int| 0 <= k < b.len() ==> #[trigger] b[k] != sep,
    ensures
        text::split_on(a + b, sep) == text::split_on(a, sep).update(
            text::split_on(a, sep).len() - 1,
            text::split_on(a, sep).last() + b,
        ),
    decreases b.len(),
{
    text::lemma_split_on_nonempty(a, sep);
    let s = text::split_on(a, sep);
    let n = s.len();
    if b.len() == 0 {
        assert(a + b =~= a);
        assert(s.last() + b =~= s.last());
        assert(s.update(n - 1, s.last()) =~= s);
    } else {
        let bi = b.drop_last();
        assert forall|k: int| 0 <= k < bi.len() implies #[trigger] bi[k] != sep by {
            assert(bi[k] == b[k]);
        }
        lemma_split_append_plain(a, bi, sep);
        assert((a + b).drop_last() =~= a + bi);
        assert((a + b).last() == b[b.len() - 1]);
        let i = text::split_on(a + bi, sep);
        assert((s.last() + bi).push(b.last()) =~= s.last() + b);
        assert(i.update(n - 1, i.last().push(b.last())) =~= s.update(n - 1, s.last() + b));
    }
}

proof fn lemma_split_joined(v: Seq<Seq<char>>, sep: char)
    requires
        v.len() >= 1,
        forall|i: int, k: int| 0 <= i < v.len() && 0 <= k < v[i].len() ==> #[trigger] v[i][k] != sep,
    ensures
        text::split_on(text::joined(v, seq![sep]), sep) == v,
    decreases v.len(),
{
    let last = v[v.len() - 1];
    assert forall|k: int| 0 <= k < last.len() implies #[trigger] last[k] != sep by {
        assert(v[v.len() - 1][k] != sep);
    }
    if v.len() == 1 {
        lemma_split_append_plain(Seq::empty(), v[0], sep);
        assert(Seq::<char>::empty() + v[0] =~= v[0]);
        assert(seq![Seq::<char>::empty()].update(0, Seq::<char>::empty() + v[0]) =~= v);
    } else {
        let init = v.drop_last();
        assert forall|i: int, k: int| 0 <= i < init.len() && 0 <= k < init[i].len() implies #[trigger] init[i][k] != sep by {
            assert(init[i] == v[i]);
        }
        lemma_split_joined(init, sep);
        let j = text::joined(init, seq![sep]);
        assert((j + seq![sep]).drop_last() =~= j);
        assert((j + seq![sep]).last() == sep);
        lemma_split_append_plain(j + seq![sep], last, sep);
        assert(text::joined(v, seq![sep]) == j + seq![sep] + last);
        assert(init.push(Seq::<char>::empty()).update(init.len() as int, Seq::<char>::empty() + last) =~= v);
    }
}

proof fn lemma_nonempty_trimmed_clean(v: Seq<Seq<char>>)
    requires
        forall|i: int| 0 <= i < v.len() ==> (#[trigger] v[i]).len() > 0 && text::trimmed(v[i]) == v[i],
    ensures
        task::nonempty_trimmed(v) == v,
    decreases v.len(),
{
    if v.len() > 0 {
        let init = v.drop_last();
        assert forall|i: int| 0 <= i < init.len() implies (#[trigger] init[i]).len() > 0 && text::trimmed(init[i]) == init[i] by {
            assert(init[i] == v[i]);
        }
        lemma_nonempty_trimmed_clean(init);
        assert(v.last() == v[v.len() - 1]);
        assert(init.push(v.last()) =~= v);
    }
}

/// Tags that are non-empty, trimmed and free of commas, written as a comma-separated
/// list, are read back as the same tags.
pub proof fn law_tags_round_trip(v: Seq<Seq<char>>)
    requires
        forall|i: int| 0 <= i < v.len() ==> {
            &&& (#[trigger] v[i]).len() > 0
            &&& text::trimmed(v[i]) == v[i]
            &&& forall|k: int| 0 <= k < v[i].len() ==> v[i][k] != ','
        },
    ensures
        task::tags_of(text::joined(v, seq![','])) == v,
{
    if v.len() == 0 {
        let e = Seq::<char>::empty();
        assert(text::trimmed(e) =~= e);
        assert(seq![e].drop_last() =~= Seq::<Seq<char>>::empty());
        assert(seq![e].last() == e);
        assert(task::nonempty_trimmed(Seq::<Seq<char>>::empty()) == Seq::<Seq<char>>::empty());
        assert(task::nonempty_trimmed(seq![e]) =~= v);
    } else {
        assert forall|i: int, k: int| 0 <= i < v.len() && 0 <= k < v[i].len() implies #[trigger] v[i][k] != ',' by {
            assert(v[i].len() > 0);
        }
        lemma_split_joined(v, ',');
        lemma_nonempty_trimmed_clean(v);
    }
}

/// Reading tags, writing them back with commas and reading them again gives the same
/// tags.
pub proof fn law_tags_reparse(raw: Seq<char>)
    ensures
        task::tags_of(text::joined(task::tags_of(raw), seq![','])) == task::tags_of(raw),
{
    law_parsed_tags_are_clean(raw);
    let v = task::tags_of(raw);
    assert forall|i: int| 0 <= i < v.len() implies {
        &&& (#[trigger] v[i]).len() > 0
        &&& text::trimmed(v[i]) == v[i]
        &&& forall|k: int| 0 <= k < v[i].len() ==> v[i][k] != ','
    } by {
        let t = task::tags_of(raw)[i];
        assert(t.len() > 0);
    }
    law_tags_round_trip(v);
}

proof fn lemma_filter_idempotent<A>(s: Seq<A>, pred: spec_fn(A) -> bool)
    ensures
        s.filter(pred).filter(pred) == s.filter(pred),
    decreases s.len(),
{
    if s.len() == 0 {
        reveal_with_fuel(Seq::filter, 2);
        assert(s.filter(pred) =~= Seq::<A>::empty());
    } else {
        let init = s.drop_last();
        lemma_filter_idempotent(init, pred);
        init.lemma_filter_push(s.last(), pred);
        assert(init.push(s.last()) =~= s);
        if pred(s.last()) {
            init.filter(pred).lemma_filter_push(s.last(), pred);
        }
    }
}

/// Filtering a listing again with the same status and tags changes nothing.
pub proof fn law_filtering_twice(ts: Seq<TaskView>, status: Option<TaskStatus>, tags: Seq<Seq<char>>)
    ensures
        ts.filter(storage::listing_pred(status, tags)).filter(storage::listing_pred(status, tags))
            == ts.filter(storage::listing_pred(status, tags)),
{
    lemma_filter_idempotent(ts, storage::listing_pred(status, tags));
}

/// When identifiers are distinct and all of one length (as ULIDs are), looking a task up
/// by its full identifier finds that task.
pub proof fn law_full_id_finds_task(ts: Seq<TaskView>, k: int)
    requires
        0 <= k < ts.len(),
        forall|i: int, j: int| 0 <= i < ts.len() && 0 <= j < ts.len() && i != j ==> #[trigger] ts[i].id != #[trigger] ts[j].id,
        forall|i: int| 0 <= i < ts.len() ==> (#[trigger] ts[i]).id.len() == ts[k].id.len(),
    ensures
        task::resolve_matches(ts, ts[k].id) == seq![ts[k]],
{
    let q = ts[k].id;
    assert(q.take(q.len() as int) =~= q);
    assert forall|j: int| 0 <= j < ts.len() && j != k implies !text::has_prefix(#[trigger] ts[j].id, q) by {
        assert(ts[j].id.len() == q.len());
        assert(ts[j].id.take(q.len() as int) =~= ts[j].id);
        assert(ts[j].id != ts[k].id);
    }
    law_unique_id_prefix_resolves(ts, q, k);
}

/// Task identifiers that are pairwise distinct and all of one length, as ULIDs are.
pub open spec fn distinct_equal_ids(ts: Seq<TaskView>) -> bool {
    &&& forall|i: int, j: int| 0 <= i < ts.len() && 0 <= j < ts.len() && i != j ==> #[trigger] ts[i].id != #[trigger] ts[j].id
    &&& forall|i: int, j: int| 0 <= i < ts.len() && 0 <= j < ts.len() ==> (#[trigger] ts[i]).id.len() == (#[trigger] ts[j]).id.len()
}

/// Each task of `after` has the identifier of the task at the same place in `before`,
/// and is either that task or that task, open in `before`, completed with no commit.
pub open spec fn kept_or_completed(before: Seq<TaskView>, after: Seq<TaskView>) -> bool {
    &&& after.len() == before.len()
    &&& forall|k: int| 0 <= k < before.len() ==> {
        &&& (#[trigger] after[k]).id == before[k].id
        &&& after[k] == before[k] || (before[k].status == TaskStatus::Open
            && exists|at: Timestamp| after[k] == task::completed(before[k], at, None))
    }
}

proof fn lemma_kept_transitive(a: Seq<TaskView>, b: Seq<TaskView>, c: Seq<TaskView>)
    requires
        kept_or_completed(a, b),
        kept_or_completed(b, c),
    ensures
        kept_or_completed(a, c),
{
    assert forall|k: int| 0 <= k < a.len() implies {
        &&& (#[trigger] c[k]).id == a[k].id
        &&& c[k] == a[k] || (a[k].status == TaskStatus::Open
            && exists|at: Timestamp| c[k] == task::completed(a[k], at, None))
    } by {
        assert(c[k].id == b[k].id);
        assert(b[k].id == a[k].id);
        if b[k] != a[k] {
            let at1 = choose|at: Timestamp| b[k] == task::completed(a[k], at, None);
            assert(b[k].status == TaskStatus::Done);
            assert(c[k] == b[k]);
            assert(c[k] == task::completed(a[k], at1, None));
        } else if c[k] != b[k] {
            let at2 = choose|at: Timestamp| c[k] == task::completed(b[k], at, None);
            assert(c[k] == task::completed(a[k], at2, None));
        }
    }
}

/// Completing an open task, looked up by its identifier, completes exactly that task.
proof fn lemma_complete_open_task(ts: Seq<TaskView>, i: int, at: Timestamp)
    requires
        distinct_equal_ids(ts),
        0 <= i < ts.filter(storage::is_open()).len(),
    ensures
        kept_or_completed(ts, commands::complete_by_query(ts, ts.filter(storage::is_open())[i].id, at)),
        forall|j: int, k: int| 0 <= j < k < ts.len() ==> #[trigger] commands::complete_by_query(ts, ts.filter(storage::is_open())[i].id, at)[j] == ts[j]
            || #[trigger] commands::complete_by_query(ts, ts.filter(storage::is_open())[i].id, at)[k] == ts[k],
{
    let open = ts.filter(storage::is_open());
    let x = open[i];
    ts.lemma_filter_pred(storage::is_open(), i);
    assert(open.contains(x));
    ts.lemma_filter_contains_rev(storage::is_open(), x);
    let p = choose|p: int| 0 <= p < ts.len() && ts[p] == x;
    assert forall|a: int| 0 <= a < ts.len() implies (#[trigger] ts[a]).id.len() == ts[p].id.len() by {
        assert(ts[a].id.len() == ts[p].id.len());
    }
    law_full_id_finds_task(ts, p);
    assert forall|k: int| 0 <= k < p implies #[trigger] ts[k].id != x.id by {
        assert(ts[k].id != ts[p].id);
    }
    law_mark_done_changes_one_task(ts, x.id, at, None, p);
    let after = commands::complete_by_query(ts, x.id, at);
    assert(after == storage::mark_first_with_id(ts, x.id, at, None));
    assert forall|k: int| 0 <= k < ts.len() implies {
        &&& (#[trigger] after[k]).id == ts[k].id
        &&& after[k] == ts[k] || (ts[k].status == TaskStatus::Open
            && exists|t: Timestamp| after[k] == task::completed(ts[k], t, None))
    } by {
        if k == p {
            assert(after[k] == task::completed(ts[k], at, None));
        } else {
            assert(after[k] == ts[k]);
        }
    }
    assert forall|j: int, k: int| 0 <= j < k < ts.len() implies #[trigger] after[j] == ts[j] || #[trigger] after[k] == ts[k] by {
        if j != p {
            assert(after[j] == ts[j]);
        } else {
            assert(after[k] == ts[k]);
        }
    }
}

/// One key on the board changes at most one task, and only `d` changes any: the task it
/// completes was open, keeps its place and identifier, and gets no commit.
pub proof fn law_board_key_changes_at_most_one(ts: Seq<TaskView>, s: commands::BoardState, key: commands::BoardKey, at: Timestamp)
    requires
        distinct_equal_ids(ts),
        ts.len() <= usize::MAX,
    ensures
        kept_or_completed(ts, commands::board_round(ts, s, key, at).1),
        key != commands::BoardKey::MarkDone ==> commands::board_round(ts, s, key, at).1 == ts,
        forall|j: int, k: int| 0 <= j < k < ts.len() ==> #[trigger] commands::board_round(ts, s, key, at).1[j] == ts[j]
            || #[trigger] commands::board_round(ts, s, key, at).1[k] == ts[k],
{
    let open = ts.filter(storage::is_open());
    let done = ts.filter(storage::is_done());
    ts.lemma_filter_len(storage::is_open());
    ts.lemma_filter_len(storage::is_done());
    let c = commands::clamped(s, open.len(), done.len());
    law_board_clamp_fits(s, open.len(), done.len());
    law_board_cursor_stays_in_columns(c, key, open.len(), done.len());
    let step = commands::board_next(c, key, open.len(), done.len());
    let after = commands::board_round(ts, s, key, at).1;
    match step.1 {
        commands::BoardAction::MarkDone(i) => {
            assert(i < open.len());
            lemma_complete_open_task(ts, i as int, at);
            assert(after == commands::complete_by_query(ts, open[i as int].id, at));
        },
        _ => {
            assert(after == ts);
            assert(kept_or_completed(ts, ts));
        },
    }
}

/// However many keys the board answers, every task keeps its place and identifier, and
/// each is either unchanged or was open and is now completed with no commit.
pub proof fn law_board_run_keeps_tasks(ts: Seq<TaskView>, s: commands::BoardState, keys: Seq<commands::BoardKey>, ats: Seq<Timestamp>)
    requires
        distinct_equal_ids(ts),
        ts.len() <= usize::MAX,
    ensures
        kept_or_completed(ts, commands::board_run(ts, s, keys, ats)),
    decreases keys.len(),
{
    if keys.len() == 0 {
        assert(commands::board_run(ts, s, keys, ats) == ts);
    } else {
        let r = commands::board_round(ts, s, keys[0], ats[0]);
        law_board_key_changes_at_most_one(ts, s, keys[0], ats[0]);
        if !r.2 {
            let m = r.1;
            assert forall|i: int, j: int| 0 <= i < m.len() && 0 <= j < m.len() && i != j implies #[trigger] m[i].id != #[trigger] m[j].id by {
                assert(m[i].id == ts[i].id);
                assert(m[j].id == ts[j].id);
            }
            assert forall|i: int, j: int| 0 <= i < m.len() && 0 <= j < m.len() implies (#[trigger] m[i]).id.len() == (#[trigger] m[j]).id.len() by {
                assert(m[i].id == ts[i].id);
                assert(m[j].id == ts[j].id);
            }
            law_board_run_keeps_tasks(m, r.0, keys.drop_first(), ats.drop_first());
            lemma_kept_transitive(ts, m, commands::board_run(m, r.0, keys.drop_first(), ats.drop_first()));
        }
    }
}

/// A title lookup's candidates are exactly the tasks whose lowercased title contains the
/// lowercased query, in their order: no other field of a task makes it a candidate.
pub proof fn law_title_lookup_reads_titles_only(ts: Seq<TaskView>, q: Seq<char>)
    ensures
        forall|i: int| 0 <= i < ts.filter(task::title_pred(q)).len() ==> text::has_infix(
            text::spec_to_lowercase((#[trigger] ts.filter(task::title_pred(q))[i]).title),
            text::spec_to_lowercase(q),
        ),
        forall|i: int| 0 <= i < ts.len() && text::has_infix(text::spec_to_lowercase((#[trigger] ts[i]).title), text::spec_to_lowercase(q))
            ==> ts.filter(task::title_pred(q)).contains(ts[i]),
        forall|i: int| 0 <= i < ts.filter(task::title_pred(q)).len() ==> ts.contains(#[trigger] ts.filter(task::title_pred(q))[i]),
{
    let f = ts.filter(task::title_pred(q));
    assert forall|i: int| 0 <= i < f.len() implies text::has_infix(
        text::spec_to_lowercase((#[trigger] f[i]).title),
        text::spec_to_lowercase(q),
    ) by {
        ts.lemma_filter_pred(task::title_pred(q), i);
    }
    assert forall|i: int| 0 <= i < ts.len() && text::has_infix(text::spec_to_lowercase((#[trigger] ts[i]).title), text::spec_to_lowercase(q))
        implies f.contains(ts[i]) by {
        ts.lemma_filter_contains(task::title_pred(q), i);
    }
    assert forall|i: int| 0 <= i < f.len() implies ts.contains(#[trigger] f[i]) by {
        assert(f.contains(f[i]));
        ts.lemma_filter_contains_rev(task::title_pred(q), f[i]);
    }
}

/// When no identifier begins with the query, the task a query refers to (`resolve_task`,
/// and so the task `done` completes) is chosen among the tasks whose lowercased title
/// contains the lowercased query, and every such task is a candidate.
pub proof fn law_query_without_id_match_reads_titles(ts: Seq<TaskView>, q: Seq<char>)
    requires
        forall|i: int| 0 <= i < ts.len() ==> !text::has_prefix(#[trigger] ts[i].id, q),
    ensures
        forall|i: int| 0 <= i < task::resolve_matches(ts, q).len() ==> text::has_infix(
            text::spec_to_lowercase((#[trigger] task::resolve_matches(ts, q)[i]).title),
            text::spec_to_lowercase(q),
        ),
        forall|i: int| 0 <= i < ts.len() && text::has_infix(text::spec_to_lowercase((#[trigger] ts[i]).title), text::spec_to_lowercase(q))
            ==> task::resolve_matches(ts, q).contains(ts[i]),
{
    assert(task::resolve_matches(ts, q) == ts.filter(task::title_pred(q)));
    law_title_lookup_reads_titles_only(ts, q);
}

/// No shipped task is left out of a report: every done task of the list that was completed
/// at or after the period's first instant and not after `now` (at any time, for `All`)
/// is in the report.
pub proof fn law_report_includes_every_shipped(ts: Seq<TaskView>, period: report::ReportPeriod, now: Timestamp, k: int)
    requires
        0 <= k < ts.len(),
        ts[k].status == TaskStatus::Done,
        period == report::ReportPeriod::All || (ts[k].completed_at is Some
            && report::start_key(period, now)->0 <= ts[k].completed_at->0.key()
            && ts[k].completed_at->0.key() <= now.key()),
    ensures
        report::shipped_in(ts, period, now).contains(ts[k]),
{
    broadcast use vstd::seq_lib::group_to_multiset_ensures;
    let pred = report::shipped_pred(report::start_key(period, now), now);
    assert(pred(ts[k]));
    ts.lemma_filter_contains(pred, k);
    let f = ts.filter(pred);
    let sorted = order::sort_by_key(f, report::completed_key());
    order::lemma_sort_by_key(f, report::completed_key());
    assert(f.to_multiset().count(ts[k]) > 0);
    assert(sorted.to_multiset().count(ts[k]) > 0);
    assert(sorted.contains(ts[k]));
    let j = choose|j: int| 0 <= j < sorted.len() && sorted[j] == ts[k];
    let r = sorted.reverse();
    assert(r[sorted.len() - 1 - j] == sorted[j]);
    assert(r == report::shipped_in(ts, period, now));
}

/// Each shipped task adds its own section to the Markdown report, after those of the
/// tasks before it: the report for one more task is the report without it, followed by
/// that task's section.
pub proof fn law_markdown_section_per_task(
    shipped: Seq<TaskView>,
    t: TaskView,
    n: int,
    linked: int,
    top: Seq<(Seq<char>, int)>,
    period: report::ReportPeriod,
    now: Timestamp,
)
    requires
        shipped.len() > 0,
    ensures
        report::markdown_report(shipped.push(t), n, linked, top, period, now)
            == report::markdown_report(shipped, n, linked, top, period, now) + report::md_block(t),
{
    assert(shipped.push(t).drop_last() =~= shipped);
    assert(shipped.push(t).last() == t);
    assert(report::md_blocks(shipped.push(t)) == report::md_blocks(shipped) + report::md_block(t));
    let a = report::markdown_report(shipped.push(t), n, linked, top, period, now);
    let b = report::markdown_report(shipped, n, linked, top, period, now);
    assert(a =~= b + report::md_block(t));
}

/// The first shipped task's section stands where a report without tasks says that
/// nothing was shipped: that report ends with the notice, and the report for one task is
/// the same text with the notice replaced by the task's section.
pub proof fn law_markdown_first_section(
    t: TaskView,
    n: int,
    linked: int,
    top: Seq<(Seq<char>, int)>,
    period: report::ReportPeriod,
    now: Timestamp,
)
    ensures
        ({
            let empty = report::markdown_report(Seq::empty(), n, linked, top, period, now);
            let notice = "_No shipped tasks in this period._\n"@;
            &&& notice.len() <= empty.len()
            &&& empty.skip(empty.len() - notice.len()) == notice
            &&& report::markdown_report(seq![t], n, linked, top, period, now)
                == empty.take(empty.len() - notice.len()) + report::md_block(t)
        }),
{
    assert(seq![t].drop_last() =~= Seq::<TaskView>::empty());
    assert(seq![t].last() == t);
    assert(report::md_blocks(Seq::<TaskView>::empty()) == Seq::<char>::empty());
    assert(report::md_blocks(seq![t]) =~= report::md_block(t));
    let empty = report::markdown_report(Seq::empty(), n, linked, top, period, now);
    let notice = "_No shipped tasks in this period._\n"@;
    let head = "# What I shipped — "@ + report::label_of(period) + "\n\n"@ + "_Generated "@ + time::spec_utc_format(
        now.secs_spec(),
        now.nanos_spec(),
        "%Y-%m-%d %H:%M UTC"@,
    ) + "_\n\n"@ + "## Summary\n\n"@ + "- **Shipped:** "@ + text::decimal(n as nat) + "\n"@
        + "- **Linked commits:** "@ + text::decimal(linked as nat) + "\n"@ + (if top.len() > 0 {
        "- **Focus areas:** "@ + text::joined(top.map_values(|e: (Seq<char>, int)| report::md_tag_entry(e)), ", "@) + "\n"@
    } else {
        Seq::empty()
    }) + "\n## Shipped\n\n"@;
    assert(empty == head + notice);
    assert(empty.skip(empty.len() - notice.len()) =~= notice);
    assert(empty.take(empty.len() - notice.len()) =~= head);
    assert(report::markdown_report(seq![t], n, linked, top, period, now) == head + report::md_block(t));
}

/// A task's section opens with `### `, its title, and its completion date
/// (`YYYY-MM-DD` in UTC, or `?` when it has none) in brackets, then a blank line.
pub proof fn law_markdown_section_heading(t: TaskView)
    ensures
        text::has_prefix(
            report::md_block(t),
            "### "@ + t.title + " ("@ + (match t.completed_at {
                Some(c) => time::spec_utc_format(c.secs_spec(), c.nanos_spec(), "%Y-%m-%d"@),
                None => "?"@,
            }) + ")\n\n"@,
        ),
{
    let h = "### "@ + t.title + " ("@ + report::md_date(t.completed_at) + ")\n\n"@;
    assert(report::md_block(t).take(h.len() as int) =~= h);
}

/// A listing draws one row per task, in order, and each row's second cell names the task's
/// own status: `open` for an open task, `done` for a done one, two different words.
pub proof fn law_list_rows_show_status(ts: Seq<TaskView>, color: crate::utils::ColorMode)
    requires
        ts.len() > 0,
    ensures
        commands::list_text(ts, color) == table::spec_table_text(commands::list_header(), ts.map_values(|t: TaskView| commands::list_row(t))),
        ts.map_values(|t: TaskView| commands::list_row(t)).len() == ts.len(),
        forall|i: int| 0 <= i < ts.len() ==> ts.map_values(|t: TaskView| commands::list_row(t))[i]
            == commands::list_row(#[trigger] ts[i]),
        forall|i: int| 0 <= i < ts.len() ==> commands::list_row(#[trigger] ts[i])[1]
            == if ts[i].status == TaskStatus::Open { "open"@ } else { "done"@ },
        "open"@ != "done"@,
{
    reveal_strlit("open");
    reveal_strlit("done");
    assert("open"@[0] != "done"@[0]);
}

/// `k`/Up moves the cursor of the focused column one task up unless it is at the top,
/// where it stays; the other cursor and the focus stay as they were.
pub proof fn law_board_up(s: commands::BoardState, open_len: nat, done_len: nat)
    ensures
        commands::board_next(s, commands::BoardKey::Up, open_len, done_len).1 == commands::BoardAction::Continue,
        commands::board_next(s, commands::BoardKey::Up, open_len, done_len).0.focus_open == s.focus_open,
        s.focus_open ==> commands::board_next(s, commands::BoardKey::Up, open_len, done_len).0.selected_done == s.selected_done,
        !s.focus_open ==> commands::board_next(s, commands::BoardKey::Up, open_len, done_len).0.selected_open == s.selected_open,
        s.focus_open && s.selected_open > 0 ==> commands::board_next(s, commands::BoardKey::Up, open_len, done_len).0.selected_open + 1 == s.selected_open,
        s.focus_open && s.selected_open == 0 ==> commands::board_next(s, commands::BoardKey::Up, open_len, done_len).0.selected_open == 0,
        !s.focus_open && s.selected_done > 0 ==> commands::board_next(s, commands::BoardKey::Up, open_len, done_len).0.selected_done + 1 == s.selected_done,
        !s.focus_open && s.selected_done == 0 ==> commands::board_next(s, commands::BoardKey::Up, open_len, done_len).0.selected_done == 0,
{
}

/// `j`/Down moves the cursor of the focused column one task down unless it is on the last
/// task, where it stays; the other cursor and the focus stay as they were.
pub proof fn law_board_down(s: commands::BoardState, open_len: nat, done_len: nat)
    requires
        commands::board_fits(s, open_len, done_len),
        open_len <= usize::MAX,
        done_len <= usize::MAX,
    ensures
        commands::board_next(s, commands::BoardKey::Down, open_len, done_len).1 == commands::BoardAction::Continue,
        commands::board_next(s, commands::BoardKey::Down, open_len, done_len).0.focus_open == s.focus_open,
        s.focus_open ==> commands::board_next(s, commands::BoardKey::Down, open_len, done_len).0.selected_done == s.selected_done,
        !s.focus_open ==> commands::board_next(s, commands::BoardKey::Down, open_len, done_len).0.selected_open == s.selected_open,
        s.focus_open && s.selected_open + 1 < open_len ==> commands::board_next(s, commands::BoardKey::Down, open_len, done_len).0.selected_open == s.selected_open + 1,
        s.focus_open && s.selected_open + 1 >= open_len ==> commands::board_next(s, commands::BoardKey::Down, open_len, done_len).0.selected_open == s.selected_open,
        !s.focus_open && s.selected_done + 1 < done_len ==> commands::board_next(s, commands::BoardKey::Down, open_len, done_len).0.selected_done == s.selected_done + 1,
        !s.focus_open && s.selected_done + 1 >= done_len ==> commands::board_next(s, commands::BoardKey::Down, open_len, done_len).0.selected_done == s.selected_done,
{
}

/// Tab switches the focus between the columns and moves no cursor; `q` leaves the board
/// with the cursors as they were; `d` asks to complete the selected open task when the
/// open column has the focus and holds a task, and does nothing otherwise; other keys do
/// nothing.
pub proof fn law_board_other_keys(s: commands::BoardState, key: commands::BoardKey, open_len: nat, done_len: nat)
    ensures
        key == commands::BoardKey::Tab ==> commands::board_next(s, key, open_len, done_len) == (commands::BoardState {
            selected_open: s.selected_open,
            selected_done: s.selected_done,
            focus_open: !s.focus_open,
        }, commands::BoardAction::Continue),
        key == commands::BoardKey::Quit ==> commands::board_next(s, key, open_len, done_len) == (s, commands::BoardAction::Quit),
        key == commands::BoardKey::MarkDone && s.focus_open && open_len > 0
            ==> commands::board_next(s, key, open_len, done_len) == (s, commands::BoardAction::MarkDone(s.selected_open)),
        key == commands::BoardKey::MarkDone && !(s.focus_open && open_len > 0)
            ==> commands::board_next(s, key, open_len, done_len) == (s, commands::BoardAction::Continue),
        (key == commands::BoardKey::Add || key == commands::BoardKey::Other)
            ==> commands::board_next(s, key, open_len, done_len) == (s, commands::BoardAction::Continue),
{
}

/// Without color every styling leaves the text as it is.
pub proof fn law_no_color_means_plain_text(color: crate::utils::ColorMode, t: Seq<char>)
    requires
        !color.enabled_spec(),
    ensures
        color.success_spec(t) == t,
        color.error_spec(t) == t,
        color.info_spec(t) == t,
        color.highlight_spec(t) == t,
        color.dim_spec(t) == t,
        color.id_spec(t) == t,
{
}

/// An identifier made of ASCII characters can always be shortened for display, and
/// its shown part is its first eight characters (all of a shorter one).
pub proof fn law_ascii_ids_show_leading_chars(id: Seq<char>)
    requires
        vstd::utf8::is_ascii_chars(id),
    ensures
        text::id_sliceable(id),
        text::short_len(id) == if id.len() < 8 { id.len() as int } else { 8 },
        text::short_id_of(id) == id.take(text::short_len(id)),
{
    let bytes = vstd::utf8::encode_utf8(id);
    vstd::utf8::is_ascii_chars_encode_utf8(id);
    vstd::utf8::encode_utf8_valid_utf8(id);
    let k = text::short_len(id);
    let head = id.take(k);
    assert(vstd::utf8::is_ascii_chars(head));
    vstd::utf8::is_ascii_chars_encode_utf8(head);
    assert(vstd::utf8::encode_utf8(head) =~= bytes.subrange(0, k)) by {
        assert forall|i: int| 0 <= i < k implies vstd::utf8::encode_utf8(head)[i] == bytes.subrange(0, k)[i] by {
            assert(head[i] == id[i]);
            assert(head[i] as u8 == vstd::utf8::encode_utf8(head)[i]);
            assert(id[i] as u8 == bytes[i]);
        }
    }
    vstd::utf8::encode_utf8_decode_utf8(head);
    if k == bytes.len() {
        vstd::utf8::is_char_boundary_start_end_of_seq(bytes);
    } else {
        vstd::utf8::is_char_boundary_iff_is_leading_byte(bytes, k);
        assert(id[k] as u8 == bytes[k]);
        assert(vstd::utf8::is_leading_byte_width_1(bytes[k]));
    }
}

/// Identifiers of new tasks (ULID text) show their first eight characters.
pub proof fn law_new_task_ids_show_first_eight(id: Seq<char>)
    requires
        id.len() == 26,
        forall|k: int| 0 <= k < 26 ==> task::is_ulid_char(#[trigger] id[k]),
    ensures
        text::id_sliceable(id),
        text::short_id_of(id) == id.take(8),
{
    assert(vstd::utf8::is_ascii_chars(id)) by {
        assert forall|i: int| 0 <= i < id.len() implies '\0' <= #[trigger] id[i] <= '\u{7f}' by {
            assert(task::is_ulid_char(id[i]));
        }
    }
    law_ascii_ids_show_leading_chars(id);
}

} // verus!
