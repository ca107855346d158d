//! What the log promises across several operations.

use vstd::prelude::*;
use crate::compaction::{compacted, garbage_batch, lemma_batch_is_garbage, lemma_compacted_after};
use crate::compaction::{lemma_anchor, lemma_filter_keeps_order, stamp, stamps, superseded};
use crate::compaction::{without, Stamp};
use crate::domain::{EventView, FilterView, TaskId, TaskView, Timestamp};
use crate::domain::{UpdateTaskRequest, WatchView};
use crate::errors::Fault;
use crate::history::{event_sound, follows, lemma_latest_after_removal, preceding};
use crate::listing::{is_listing, wanted, wanted_task};
use crate::replay::{batch, first_incomplete, from_revision, incomplete, replay};
use crate::replay::{start_fault, watch_all, watch_of};
use crate::repository::{compact_fault, create_result, has_task, latest, latest_at, lemma_latest};
use crate::repository::{lemma_latest_exists, log_after, revisions_ascend, update_result, LogView};
use crate::repository::RevisionState;
use crate::rules::place_valid;
use crate::sequences::{lemma_filter_all, lemma_filter_filter, lemma_filter_members};
use crate::sequences::lemma_filter_suffix;

verus! {

// ------------------------------------------------------------------- changes

/// A log grew by one event: at the end, with the next revision, above every
/// revision before it.
pub open spec fn grew_by(log: LogView, after: LogView, e: EventView) -> bool {
    &&& after.events == log.events.push(e)
    &&& e.revision == log.state.current_revision + 1
    &&& after.state == (RevisionState { current_revision: e.revision, ..log.state })
    &&& forall|i: int| 0 <= i < log.events.len() ==> (#[trigger] log.events[i]).revision < e.revision
}

/// The log knows the task by this event, and every other task as before.
pub open spec fn reads_back(log: LogView, after: LogView, e: EventView) -> bool {
    &&& has_task(after.events, e.task_id)
    &&& latest(after.events, e.task_id) == e
    &&& forall|id: TaskId|
        id != e.task_id ==> (#[trigger] has_task(after.events, id) <==> has_task(log.events, id))
    &&& forall|id: TaskId|
        id != e.task_id && has_task(log.events, id) ==> #[trigger] latest(after.events, id)
            == latest(log.events, id)
}

proof fn lemma_append_reads_back(log: LogView, e: EventView)
    ensures
        reads_back(log, log.append(e), e),
{
    let s = log.events;
    let t = s.push(e);
    let n = s.len() as int;
    assert(latest_at(t, n));
    lemma_latest(t, e.task_id, n);
    assert forall|id: TaskId| id != e.task_id implies (#[trigger] has_task(t, id) <==> has_task(
        s,
        id,
    )) by {
        if has_task(t, id) {
            let i = choose|i: int| 0 <= i < t.len() && (#[trigger] t[i]).task_id == id;
            assert(s[i].task_id == id);
        }
        if has_task(s, id) {
            let i = choose|i: int| 0 <= i < s.len() && (#[trigger] s[i]).task_id == id;
            assert(t[i].task_id == id);
        }
    }
    assert forall|id: TaskId| id != e.task_id && has_task(s, id) implies #[trigger] latest(t, id)
        == latest(s, id) by {
        let i = choose|i: int| 0 <= i < s.len() && (#[trigger] s[i]).task_id == id;
        let k = lemma_latest_exists(s, i);
        lemma_latest(s, id, k);
        assert(t[k] == s[k]);
        assert(latest_at(t, k)) by {
            assert forall|j: int| k < j < t.len() implies (#[trigger] t[j]).task_id
                != t[k].task_id by {
                if j < n {
                    assert(s[j].task_id != s[k].task_id);
                }
            }
        }
        lemma_latest(t, id, k);
    }
}

/// Creating a task appends exactly one event, and the task reads as that event
/// left it; a refusal changes nothing.
pub proof fn lemma_create_appends(
    log: LogView,
    id: TaskId,
    description: Seq<char>,
    now: Timestamp,
)
    requires
        log.valid(),
    ensures
        ({
            let r = create_result(log, id, description, now);
            let after = log_after(log, r);
            &&& r is Ok ==> grew_by(log, after, r->Ok_0) && reads_back(log, after, r->Ok_0)
            &&& r is Ok ==> r->Ok_0.task_id == id
            &&& r is Err ==> after == log
        }),
{
    let r = create_result(log, id, description, now);
    if r is Ok {
        lemma_append_reads_back(log, r->Ok_0);
    }
}

/// Updating a task appends exactly one event, which records the state before it,
/// and the task reads as that event left it; a refusal changes nothing.
pub proof fn lemma_update_appends(
    log: LogView,
    id: TaskId,
    request: UpdateTaskRequest,
    now: Timestamp,
)
    requires
        log.valid(),
    ensures
        ({
            let r = update_result(log, id, request, now);
            let after = log_after(log, r);
            &&& r is Ok ==> grew_by(log, after, r->Ok_0) && reads_back(log, after, r->Ok_0)
            &&& r is Ok ==> r->Ok_0.task_id == id && follows(latest(log.events, id), r->Ok_0)
            &&& r is Err ==> after == log
        }),
{
    let r = update_result(log, id, request, now);
    if r is Ok {
        let s = log.events;
        let i = choose|i: int| 0 <= i < s.len() && (#[trigger] s[i]).task_id == id;
        let k = lemma_latest_exists(s, i);
        lemma_latest(s, id, k);
        lemma_append_reads_back(log, r->Ok_0);
    }
}

/// Of two updates that name the same revision of a task, at most one succeeds:
/// once one has, the other is a conflict that names both revisions.
pub proof fn lemma_one_writer_wins(
    log: LogView,
    id: TaskId,
    first: UpdateTaskRequest,
    first_now: Timestamp,
    second: UpdateTaskRequest,
    second_now: Timestamp,
)
    requires
        log.valid(),
        first.metadata.revision == second.metadata.revision,
        update_result(log, id, first, first_now) is Ok,
    ensures
        ({
            let won = update_result(log, id, first, first_now);
            update_result(log_after(log, won), id, second, second_now)
                == Err::<EventView, Fault>(
                Fault::RevisionConflict {
                    task_id: id,
                    expected_revision: second.metadata.revision,
                    current_revision: won->Ok_0.revision,
                },
            )
        }),
{
    lemma_update_appends(log, id, first, first_now);
    let s = log.events;
    let i = choose|i: int| 0 <= i < s.len() && (#[trigger] s[i]).task_id == id;
    let k = lemma_latest_exists(s, i);
    lemma_latest(s, id, k);
    assert(s[k].revision <= log.state.current_revision);
}

/// Asking again for the state that a task has just been given is refused.
pub proof fn lemma_same_update_refused(
    log: LogView,
    id: TaskId,
    request: UpdateTaskRequest,
    now: Timestamp,
    again: UpdateTaskRequest,
    later: Timestamp,
)
    requires
        log.valid(),
        update_result(log, id, request, now) is Ok,
        again.metadata.revision == update_result(log, id, request, now)->Ok_0.revision,
        again.description == request.description,
        again.list == request.list,
        again.state == request.state,
        again.labels == request.labels,
    ensures
        update_result(log_after(log, update_result(log, id, request, now)), id, again, later)
            == Err::<EventView, Fault>(
            Fault::Validation("task update must change at least one field"@),
        ),
{
    lemma_update_appends(log, id, request, now);
}

/// An update looks at nothing of the log but the last event of the task and the
/// watermarks.
pub proof fn lemma_update_reads_latest(
    log: LogView,
    other: LogView,
    id: TaskId,
    request: UpdateTaskRequest,
    now: Timestamp,
)
    requires
        log.state == other.state,
        has_task(log.events, id) <==> has_task(other.events, id),
        has_task(log.events, id) ==> latest(log.events, id) == latest(other.events, id),
    ensures
        update_result(log, id, request, now) == update_result(other, id, request, now),
{
}

// --------------------------------------------------------------------- lists

/// A task is wanted if its last event left it so.
pub proof fn lemma_wanted_by_latest(s: Seq<EventView>, f: FilterView, t: TaskView)
    ensures
        wanted_task(s, f, t) <==> has_task(s, t.id) && latest(s, t.id).task() == t && f.matches(t),
{
    if wanted_task(s, f, t) {
        let j = choose|j: int| wanted(s, f, j) && t == s[j].task();
        assert(wanted(s, f, j));
        lemma_latest(s, t.id, j);
    }
    if has_task(s, t.id) && latest(s, t.id).task() == t && f.matches(t) {
        let i = choose|i: int| 0 <= i < s.len() && (#[trigger] s[i]).task_id == t.id;
        let k = lemma_latest_exists(s, i);
        lemma_latest(s, t.id, k);
        assert(wanted(s, f, k));
    }
}

/// Logs with the same last events have the same lists.
pub proof fn lemma_list_reads_latest(
    s: Seq<EventView>,
    t: Seq<EventView>,
    f: FilterView,
    tasks: Seq<TaskView>,
)
    requires
        forall|id: TaskId| #[trigger] has_task(s, id) <==> has_task(t, id),
        forall|id: TaskId| #[trigger] has_task(s, id) ==> latest(s, id) == latest(t, id),
    ensures
        is_listing(s, f, tasks) <==> is_listing(t, f, tasks),
{
    assert forall|x: TaskView| wanted_task(s, f, x) <==> wanted_task(t, f, x) by {
        lemma_wanted_by_latest(s, f, x);
        lemma_wanted_by_latest(t, f, x);
        assert(has_task(s, x.id) <==> has_task(t, x.id));
    }
    if is_listing(s, f, tasks) {
        assert forall|x: TaskView| #[trigger] tasks.contains(x) <==> wanted_task(t, f, x) by {
            assert(wanted_task(s, f, x) <==> wanted_task(t, f, x));
        }
    }
    if is_listing(t, f, tasks) {
        assert forall|x: TaskView| #[trigger] tasks.contains(x) <==> wanted_task(s, f, x) by {
            assert(wanted_task(s, f, x) <==> wanted_task(t, f, x));
        }
    }
}

/// `t` holds the last events of those tasks of `s` that end up in the list that
/// the filter names, or of all of them if it names none.
pub open spec fn narrowed(s: Seq<EventView>, f: FilterView, t: Seq<EventView>) -> bool {
    &&& forall|id: TaskId| #[trigger]
        has_task(t, id) <==> has_task(s, id) && (f.list is Some ==> latest(s, id).list_name
            == f.list->0)
    &&& forall|id: TaskId| #[trigger] has_task(t, id) ==> latest(t, id) == latest(s, id)
}

/// Looking only at the tasks whose last event puts them in the wanted list gives
/// the same list of tasks.
pub proof fn lemma_narrowed_list(
    s: Seq<EventView>,
    t: Seq<EventView>,
    f: FilterView,
    tasks: Seq<TaskView>,
)
    requires
        narrowed(s, f, t),
    ensures
        is_listing(t, f, tasks) <==> is_listing(s, f, tasks),
{
    assert forall|x: TaskView| wanted_task(s, f, x) <==> wanted_task(t, f, x) by {
        lemma_wanted_by_latest(s, f, x);
        lemma_wanted_by_latest(t, f, x);
        assert(has_task(t, x.id) <==> has_task(s, x.id) && (f.list is Some ==> latest(
            s,
            x.id,
        ).list_name == f.list->0));
    }
    if is_listing(s, f, tasks) {
        assert forall|x: TaskView| #[trigger] tasks.contains(x) <==> wanted_task(t, f, x) by {
            assert(wanted_task(s, f, x) <==> wanted_task(t, f, x));
        }
    }
    if is_listing(t, f, tasks) {
        assert forall|x: TaskView| #[trigger] tasks.contains(x) <==> wanted_task(s, f, x) by {
            assert(wanted_task(s, f, x) <==> wanted_task(t, f, x));
        }
    }
}

/// Every listed task is in a state that its list allows, and was last changed at
/// or before the revision of the list.
pub proof fn lemma_listed_tasks_sound(
    log: LogView,
    f: FilterView,
    tasks: Seq<TaskView>,
    i: int,
)
    requires
        log.consistent(),
        is_listing(log.events, f, tasks),
        0 <= i < tasks.len(),
    ensures
        f.matches(tasks[i]),
        place_valid(tasks[i].list, tasks[i].state),
        tasks[i].revision <= log.state.current_revision,
{
    let s = log.events;
    assert(tasks.contains(tasks[i]));
    let j = choose|j: int| wanted(s, f, j) && tasks[i] == s[j].task();
    assert(wanted(s, f, j));
    assert(event_sound(s[j]));
}

// ---------------------------------------------------------------- compaction

/// The events through a revision.
pub open spec fn as_of(s: Seq<EventView>, revision: i64) -> Seq<EventView> {
    s.filter(|e: EventView| e.revision <= revision)
}

/// Compaction keeps the last event of every task, and so every task and every
/// list as they were.
pub proof fn lemma_compaction_keeps_tasks(
    s: Seq<EventView>,
    target: i64,
    id: TaskId,
    f: FilterView,
    tasks: Seq<TaskView>,
)
    requires
        revisions_ascend(s),
    ensures
        has_task(compacted(s, target), id) <==> has_task(s, id),
        has_task(s, id) ==> latest(compacted(s, target), id) == latest(s, id),
        is_listing(compacted(s, target), f, tasks) <==> is_listing(s, f, tasks),
{
    let keep = |e: EventView| !superseded(stamps(s), stamp(e), target);
    assert forall|i: TaskId| #[trigger] has_task(s, i) <==> has_task(compacted(s, target), i) by {
        lemma_latest_after_removal(s, keep, target, i);
    }
    assert forall|i: TaskId| #[trigger] has_task(s, i) implies latest(s, i) == latest(
        compacted(s, target),
        i,
    ) by {
        lemma_latest_after_removal(s, keep, target, i);
    }
    lemma_list_reads_latest(s, compacted(s, target), f, tasks);
}

/// A step of garbage collection, too, keeps every task and every list.
pub proof fn lemma_garbage_step_keeps_tasks(
    s: Seq<EventView>,
    target: i64,
    id: TaskId,
    f: FilterView,
    tasks: Seq<TaskView>,
)
    requires
        revisions_ascend(s),
    ensures
        ({
            let t = without(s, garbage_batch(stamps(s), target));
            &&& has_task(t, id) <==> has_task(s, id)
            &&& has_task(s, id) ==> latest(t, id) == latest(s, id)
            &&& is_listing(t, f, tasks) <==> is_listing(s, f, tasks)
        }),
{
    let b = garbage_batch(stamps(s), target);
    let t = without(s, b);
    let keep = |e: EventView| !b.contains(e.revision);
    lemma_batch_is_garbage(s, target);
    assert forall|c: EventView| #[trigger] s.contains(c) && !keep(c) implies superseded(
        stamps(s),
        stamp(c),
        target,
    ) by {
        let i = choose|i: int| 0 <= i < s.len() && s[i] == c;
        assert(b.contains(s[i].revision));
    }
    assert forall|i: TaskId| #[trigger] has_task(s, i) <==> has_task(t, i) by {
        lemma_latest_after_removal(s, keep, target, i);
    }
    assert forall|i: TaskId| #[trigger] has_task(s, i) implies latest(s, i) == latest(t, i) by {
        lemma_latest_after_removal(s, keep, target, i);
    }
    lemma_list_reads_latest(s, t, f, tasks);
}

/// A step of garbage collection looks at nothing after its target.
pub proof fn lemma_narrowed_garbage(st: Seq<Stamp>, target: i64)
    ensures
        garbage_batch(st.filter(|x: Stamp| x.0 <= target), target) == garbage_batch(st, target),
{
    let low = |x: Stamp| x.0 <= target;
    let t = st.filter(low);
    let p = |x: Stamp| superseded(t, x, target);
    let q = |x: Stamp| superseded(st, x, target);
    assert forall|i: int| 0 <= i < st.len() implies (q(#[trigger] st[i]) <==> low(st[i]) && p(
        st[i],
    )) by {
        let x = st[i];
        if q(x) {
            let j = choose|j: int|
                0 <= j < st.len() && (#[trigger] st[j]).1 == x.1 && x.0 < st[j].0 <= target;
            assert(st.contains(st[j]));
            lemma_filter_members(st, low, st[j]);
            let k = choose|k: int| 0 <= k < t.len() && t[k] == st[j];
            assert(t[k].1 == x.1);
        }
        if p(x) {
            let k = choose|k: int|
                0 <= k < t.len() && (#[trigger] t[k]).1 == x.1 && x.0 < t[k].0 <= target;
            assert(t.contains(t[k]));
            lemma_filter_members(st, low, t[k]);
            let j = choose|j: int| 0 <= j < st.len() && st[j] == t[k];
            assert(st[j].1 == x.1);
        }
    }
    lemma_filter_filter(st, low, p, q);
}

/// Garbage collection can stop after any step: what remains to be done leads to
/// the same log.
pub proof fn lemma_garbage_step_resumes(s: Seq<EventView>, target: i64)
    requires
        revisions_ascend(s),
    ensures
        compacted(without(s, garbage_batch(stamps(s), target)), target) == compacted(s, target),
{
    lemma_batch_is_garbage(s, target);
    lemma_compacted_after(s, garbage_batch(stamps(s), target), target);
}

proof fn lemma_superseded_in_compacted(s: Seq<EventView>, first: i64, second: i64, e: EventView)
    requires
        revisions_ascend(s),
        first <= second,
    ensures
        superseded(stamps(compacted(s, first)), stamp(e), second) <==> superseded(
            stamps(s),
            stamp(e),
            second,
        ),
{
    let keep = |x: EventView| !superseded(stamps(s), stamp(x), first);
    let t = compacted(s, first);
    let st = stamps(s);
    let tt = stamps(t);
    if superseded(tt, stamp(e), second) {
        let j = choose|j: int|
            0 <= j < tt.len() && (#[trigger] tt[j]).1 == e.task_id && e.revision < tt[j].0
                <= second;
        assert(tt[j] == stamp(t[j]));
        assert(t.contains(t[j]));
        lemma_filter_members(s, keep, t[j]);
        let k = choose|k: int| 0 <= k < s.len() && s[k] == t[j];
        assert(st[k] == stamp(s[k]));
    }
    if superseded(st, stamp(e), second) {
        let j = choose|j: int|
            0 <= j < st.len() && (#[trigger] st[j]).1 == e.task_id && e.revision < st[j].0
                <= second;
        assert(st[j] == stamp(s[j]));
        let k = lemma_anchor(s, j, second);
        if superseded(st, stamp(s[k]), first) {
            let m = choose|m: int|
                0 <= m < st.len() && (#[trigger] st[m]).1 == s[k].task_id && s[k].revision
                    < st[m].0 <= first;
            assert(superseded(st, stamp(s[k]), second));
        }
        assert(s.contains(s[k]));
        lemma_filter_members(s, keep, s[k]);
        let m = choose|m: int| 0 <= m < t.len() && t[m] == s[k];
        assert(tt[m] == stamp(t[m]));
    }
}

/// Compacting in stages is compacting once, and compacting again at the same
/// revision changes nothing.
pub proof fn lemma_compaction_in_stages(s: Seq<EventView>, first: i64, second: i64)
    requires
        revisions_ascend(s),
        first <= second,
    ensures
        compacted(compacted(s, first), second) == compacted(s, second),
{
    let t = compacted(s, first);
    let p = |e: EventView| !superseded(stamps(s), stamp(e), first);
    let q = |e: EventView| !superseded(stamps(t), stamp(e), second);
    let r = |e: EventView| !superseded(stamps(s), stamp(e), second);
    assert forall|i: int| 0 <= i < s.len() implies (r(#[trigger] s[i]) <==> p(s[i]) && q(s[i])) by {
        lemma_superseded_in_compacted(s, first, second, s[i]);
        let st = stamps(s);
        if superseded(st, stamp(s[i]), first) {
            let m = choose|m: int|
                0 <= m < st.len() && (#[trigger] st[m]).1 == s[i].task_id && s[i].revision
                    < st[m].0 <= first;
            assert(superseded(st, stamp(s[i]), second));
        }
    }
    lemma_filter_filter(s, p, q, r);
}

/// A task reads the same as of any revision that compaction left readable, and as
/// of its watermark.
pub proof fn lemma_compaction_keeps_past(
    s: Seq<EventView>,
    target: i64,
    revision: i64,
    id: TaskId,
)
    requires
        revisions_ascend(s),
        target <= revision,
    ensures
        has_task(as_of(compacted(s, target), revision), id) <==> has_task(as_of(s, revision), id),
        has_task(as_of(s, revision), id) ==> latest(as_of(compacted(s, target), revision), id)
            == latest(as_of(s, revision), id),
{
    let p = |e: EventView| e.revision <= revision;
    let u = as_of(s, revision);
    let keep = |e: EventView| !superseded(stamps(s), stamp(e), target);
    let both = |e: EventView| keep(e) && p(e);
    lemma_filter_keeps_order(s, p);
    lemma_filter_filter(s, keep, p, both);
    lemma_filter_filter(s, p, keep, both);
    assert(as_of(compacted(s, target), revision) == u.filter(keep));
    assert forall|c: EventView| #[trigger] u.contains(c) && !keep(c) implies superseded(
        stamps(u),
        stamp(c),
        target,
    ) by {
        let st = stamps(s);
        let j = choose|j: int|
            0 <= j < st.len() && (#[trigger] st[j]).1 == c.task_id && c.revision < st[j].0
                <= target;
        assert(st[j] == stamp(s[j]));
        assert(s.contains(s[j]));
        lemma_filter_members(s, p, s[j]);
        let m = choose|m: int| 0 <= m < u.len() && u[m] == s[j];
        assert(stamps(u)[m] == stamp(u[m]));
    }
    lemma_latest_after_removal(u, keep, target, id);
}

/// Compaction removes nothing after its watermark: what can still be read reads
/// the same.
pub proof fn lemma_compaction_keeps_replay(
    s: Seq<EventView>,
    state: RevisionState,
    target: i64,
    start: i64,
    limit: i64,
)
    requires
        state.scheduled_revision <= target < start,
    ensures
        from_revision(compacted(s, target), start) == from_revision(s, start),
        replay(
            compacted(s, target),
            RevisionState { scheduled_revision: target, finished_revision: target, ..state },
            start,
            limit,
        ) == replay(s, state, start, limit),
{
    let keep = |e: EventView| !superseded(stamps(s), stamp(e), target);
    let p = |e: EventView| e.revision >= start;
    lemma_filter_filter(s, keep, p, p);
}

/// A request to compact never moves a watermark back, and afterwards the
/// watermarks are in order.
pub proof fn lemma_watermarks_advance(state: RevisionState, target: i64)
    requires
        0 <= state.finished_revision <= state.scheduled_revision <= state.current_revision,
        compact_fault(state, target) is None,
    ensures
        state.finished_revision <= target,
        state.scheduled_revision <= target <= state.current_revision,
{
}

/// What compaction has closed cannot be read, and the refusal names the
/// watermark.
pub proof fn lemma_closed_history_refused(
    s: Seq<EventView>,
    state: RevisionState,
    start: i64,
    limit: i64,
)
    requires
        start <= state.scheduled_revision,
    ensures
        replay(s, state, start, limit) == Err::<Seq<WatchView>, Fault>(
            Fault::Compacted { requested: start, compacted_revision: state.scheduled_revision },
        ),
{
}

/// Compaction frees no revision: the next event gets the revision that it would
/// have had.
pub proof fn lemma_compaction_frees_no_revision(
    log: LogView,
    target: i64,
    id: TaskId,
    description: Seq<char>,
    now: Timestamp,
)
    ensures
        create_result(
            LogView {
                events: compacted(log.events, target),
                state: RevisionState {
                    scheduled_revision: target,
                    finished_revision: target,
                    ..log.state
                },
            },
            id,
            description,
            now,
        ) == create_result(log, id, description, now),
{
}

// ------------------------------------------------------------------ watching

/// Every start after the watermark, up to one past the current revision, can be
/// read: no event of a consistent log is incomplete.
pub proof fn lemma_open_history_readable(log: LogView, start: i64, limit: i64)
    requires
        log.consistent(),
        log.state.scheduled_revision < start <= log.state.current_revision + 1,
    ensures
        replay(log.events, log.state, start, limit) == Ok::<
            Seq<WatchView>,
            Fault,
        >(watch_all(batch(log.events, start, limit))),
{
    let s = log.events;
    let b = batch(s, start, limit);
    let p = |e: EventView| e.revision >= start;
    if exists|i: int| first_incomplete(b, i) {
        let i = choose|i: int| first_incomplete(b, i);
        assert(first_incomplete(b, i));
        let rest = from_revision(s, start);
        assert(b[i] == rest[i]);
        assert(rest.contains(rest[i]));
        lemma_filter_members(s, p, rest[i]);
        let k = choose|k: int| 0 <= k < s.len() && s[k] == rest[i];
        assert(event_sound(s[k]));
        assert(incomplete(b[i]));
    }
}

/// A watcher sees the task before a change as the event before it left the task.
pub proof fn lemma_watch_shows_previous(log: LogView, a: EventView, b: EventView)
    requires
        log.consistent(),
        preceding(log.events, a, b),
    ensures
        watch_of(b).prev_task == Some(watch_of(a).task),
{
    assert(follows(a, b));
}

/// A batch holds the next events in order of revision: one limit's worth, or all
/// that there are.
pub proof fn lemma_batch_in_order(s: Seq<EventView>, start: i64, limit: i64)
    requires
        revisions_ascend(s),
    ensures
        revisions_ascend(batch(s, start, limit)),
        forall|i: int|
            0 <= i < batch(s, start, limit).len() ==> (#[trigger] batch(s, start, limit)[i]).revision
                >= start,
        batch(s, start, limit).len() == 0 <==> from_revision(s, start).len() == 0,
{
    let p = |e: EventView| e.revision >= start;
    let rest = from_revision(s, start);
    let b = batch(s, start, limit);
    lemma_filter_keeps_order(s, p);
    assert forall|i: int, j: int| 0 <= i < j < b.len() implies (#[trigger] b[i]).revision < (
    #[trigger] b[j]).revision by {
        assert(rest[i].revision < rest[j].revision);
    }
    assert forall|i: int| 0 <= i < b.len() implies (#[trigger] b[i]).revision >= start by {
        assert(rest.contains(rest[i]));
        lemma_filter_members(s, p, rest[i]);
    }
}

/// Reading on after the last event of a batch skips nothing and repeats nothing.
pub proof fn lemma_batches_cover(s: Seq<EventView>, start: i64, limit: i64)
    requires
        revisions_ascend(s),
        batch(s, start, limit).len() > 0,
        batch(s, start, limit).last().revision < i64::MAX,
    ensures
        from_revision(s, start) == batch(s, start, limit) + from_revision(
            s,
            (batch(s, start, limit).last().revision + 1) as i64,
        ),
{
    let p = |e: EventView| e.revision >= start;
    let rest = from_revision(s, start);
    let b = batch(s, start, limit);
    let next = (b.last().revision + 1) as i64;
    let q = |e: EventView| e.revision >= next;
    let n = b.len() as int;
    lemma_batch_in_order(s, start, limit);
    lemma_filter_keeps_order(s, p);
    assert(b =~= rest.take(n));
    assert(b.last() == rest[n - 1]);
    assert forall|i: int| 0 <= i < n implies !q(#[trigger] rest[i]) by {
        if i < n - 1 {
            assert(rest[i].revision < rest[n - 1].revision);
        }
    }
    assert forall|i: int| n <= i < rest.len() implies q(#[trigger] rest[i]) by {
        assert(rest[n - 1].revision < rest[i].revision);
    }
    lemma_filter_suffix(rest, q, n);
    assert(b[n - 1].revision >= start);
    lemma_filter_filter(s, p, q, q);
    assert(rest.take(n) + rest.skip(n) =~= rest);
}

/// Reading from the events of one batch alone gives what reading from the whole
/// log gives.
pub proof fn lemma_narrowed_replay(
    s: Seq<EventView>,
    state: RevisionState,
    start: i64,
    limit: i64,
)
    requires
        revisions_ascend(s),
    ensures
        replay(batch(s, start, limit), state, start, limit) == replay(s, state, start, limit),
{
    let b = batch(s, start, limit);
    lemma_batch_in_order(s, start, limit);
    lemma_filter_all(b, |e: EventView| e.revision >= start);
}

/// The log has grown by events with higher revisions than it had.
pub open spec fn extends(log: LogView, later: LogView) -> bool {
    &&& log.events.len() <= later.events.len()
    &&& later.events.take(log.events.len() as int) == log.events
    &&& forall|i: int|
        log.events.len() <= i < later.events.len() ==> (#[trigger] later.events[i]).revision
            > log.state.current_revision
}

/// Watching from the revision after a list shows exactly what has happened since
/// the list was read.
pub proof fn lemma_list_to_watch(log: LogView, later: LogView)
    requires
        log.valid(),
        later.valid(),
        extends(log, later),
        log.state.current_revision < i64::MAX,
        later.state.scheduled_revision <= log.state.current_revision
            <= later.state.current_revision,
    ensures
        start_fault((log.state.current_revision + 1) as i64, later.state) is None,
        from_revision(later.events, (log.state.current_revision + 1) as i64) == later.events.skip(
            log.events.len() as int,
        ),
{
    let start = (log.state.current_revision + 1) as i64;
    let p = |e: EventView| e.revision >= start;
    let n = log.events.len() as int;
    assert forall|i: int| 0 <= i < n implies !p(#[trigger] later.events[i]) by {
        assert(later.events.take(n)[i] == later.events[i]);
        assert(log.events[i].revision <= log.state.current_revision);
    }
    lemma_filter_suffix(later.events, p, n);
}

/// A log that grows further has grown since before.
pub proof fn lemma_extends_further(log: LogView, middle: LogView, later: LogView)
    requires
        extends(log, middle),
        extends(middle, later),
        log.state.current_revision <= middle.state.current_revision,
    ensures
        extends(log, later),
{
    let n = log.events.len() as int;
    let m = middle.events.len() as int;
    assert(later.events.take(n) =~= middle.events.take(n)) by {
        assert forall|i: int| 0 <= i < n implies later.events[i] == middle.events[i] by {
            assert(later.events.take(m)[i] == later.events[i]);
        }
    }
    assert forall|i: int| n <= i < later.events.len() implies (#[trigger] later.events[i]).revision
        > log.state.current_revision by {
        if i < m {
            assert(later.events.take(m)[i] == later.events[i]);
            assert(middle.events[i].revision > log.state.current_revision);
        }
    }
}

/// A change extends the log.
pub proof fn lemma_changes_extend(log: LogView, e: EventView)
    requires
        e.revision == log.state.current_revision + 1,
    ensures
        extends(log, log.append(e)),
{
    assert(log.append(e).events.take(log.events.len() as int) =~= log.events);
}

} // verus!
