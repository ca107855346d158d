//! What the operations of the log do, said of their inputs and of what they give.

use vstd::prelude::*;
use vstd::string::*;
use crate::compaction::{compacted, garbage, garbage_batch, lemma_filter_keeps_order, stamp, stamps};
use crate::compaction::{stamps_ascend, superseded, without, Stamp};
use crate::domain::{list_text, state_text, EventView, FilterView, TaskEventType, TaskId, TaskList};
use crate::domain::{TaskState, TaskView, Timestamp, UpdateTaskRequest, WatchView};
use crate::errors::Fault;
use crate::ids::hyphenated;
use crate::labels::{is_label_map, LabelMap};
use crate::listing::{is_listing, listed_before, wanted, wanted_task};
use crate::numbers::decimal;
use crate::replay::{batch, first_incomplete, from_revision, incomplete, replay, watch_of};
use crate::repository::{compact_fault, create_result, finished_state, has_task, latest, latest_at};
use crate::repository::{lemma_latest, lemma_latest_exists, log_after, revisions_ascend};
use crate::repository::{update_result, LogView, RevisionState};
use crate::rules::{change_allowed, labels_fault, normalized};
use crate::sequences::{lemma_filter_members, lemma_filter_suffix};
use crate::text::trimmed;
use crate::text_laws::{lemma_accepted_meaning, lemma_filter_meaning};

verus! {

broadcast use vstd::string::group_string_axioms;

// ------------------------------------------------------------ the last event

/// The last event of a task is an event of the task in the log, and no event of
/// the task has a higher revision.
pub proof fn lemma_latest_meaning(s: Seq<EventView>, id: TaskId, i: int)
    requires
        revisions_ascend(s),
        0 <= i < s.len(),
        s[i].task_id == id,
    ensures
        has_task(s, id),
        s.contains(latest(s, id)),
        latest(s, id).task_id == id,
        s[i].revision <= latest(s, id).revision,
{
    let k = lemma_latest_exists(s, i);
    lemma_latest(s, id, k);
}

/// The log knows the tasks of its events and no others.
pub proof fn lemma_known_tasks(s: Seq<EventView>, id: TaskId)
    requires
        forall|i: int| 0 <= i < s.len() ==> (#[trigger] s[i]).task_id != id,
    ensures
        !has_task(s, id),
{
}

/// A log is valid if and only if its watermarks are in order from zero on, and the
/// revisions of its events ascend strictly from at least one to at most the current
/// revision.
pub proof fn lemma_valid_meaning(log: LogView)
    ensures
        log.valid() <==> {
            &&& 0 <= log.state.finished_revision
            &&& log.state.finished_revision <= log.state.scheduled_revision
            &&& log.state.scheduled_revision <= log.state.current_revision
            &&& forall|i: int|
                0 <= i < log.events.len() ==> 1 <= (#[trigger] log.events[i]).revision
                    <= log.state.current_revision
            &&& forall|i: int, j: int|
                0 <= i < j < log.events.len() ==> (#[trigger] log.events[i]).revision < (
                #[trigger] log.events[j]).revision
        },
{
}

// ------------------------------------------------------------------ creation

/// Creating a task succeeds for every description whose trimmed text has one to
/// ten thousand characters, as long as there is a revision left, and for no other.
/// The event has the whole trimmed description; the task is new, pending and in
/// the inbox, and has no labels.
pub proof fn lemma_create_meaning(
    log: LogView,
    id: TaskId,
    description: Seq<char>,
    now: Timestamp,
)
    ensures
        create_result(log, id, description, now) is Ok <==> 1 <= trimmed(description).len()
            <= 10_000 && log.state.current_revision < i64::MAX,
        create_result(log, id, description, now) matches Ok(e) ==> {
            &&& e.description == trimmed(description)
            &&& e.description.len() == trimmed(description).len()
            &&& e.task_id == id
            &&& e.revision == log.state.current_revision + 1
            &&& e.event_type == TaskEventType::Created
            &&& e.list_name == TaskList::Inbox
            &&& e.state == TaskState::Pending
            &&& e.labels == LabelMap::empty()
            &&& e.created_at == now
            &&& e.updated_at == now
            &&& e.prev_revision is None
            &&& e.prev_description is None
            &&& e.prev_list_name is None
            &&& e.prev_state is None
            &&& e.prev_labels is None
            &&& e.prev_updated_at is None
        },
        trimmed(description).len() == 0 ==> create_result(log, id, description, now) == Err::<
            EventView,
            Fault,
        >(Fault::Validation("task description must not be empty"@)),
        trimmed(description).len() > 10_000 ==> create_result(log, id, description, now) == Err::<
            EventView,
            Fault,
        >(Fault::Validation("task description must not exceed 10,000 characters"@)),
        1 <= trimmed(description).len() <= 10_000 && log.state.current_revision == i64::MAX
            ==> create_result(log, id, description, now) == Err::<EventView, Fault>(
            Fault::Database("database or disk is full"@),
        ),
{
}

/// Two tasks with the same trimmed description, and only those, have the same
/// description once created.
pub proof fn lemma_create_tells_apart(
    log: LogView,
    id: TaskId,
    a: Seq<char>,
    b: Seq<char>,
    now: Timestamp,
)
    requires
        create_result(log, id, a, now) is Ok,
        create_result(log, id, b, now) is Ok,
    ensures
        create_result(log, id, a, now)->Ok_0.description == create_result(
            log,
            id,
            b,
            now,
        )->Ok_0.description <==> trimmed(a) == trimmed(b),
{
}

/// A change appends its event at the end of the log and moves the current
/// revision to it; a refusal leaves all as it was.
pub proof fn lemma_log_after_meaning(log: LogView, e: EventView, fault: Fault)
    ensures
        log_after(log, Ok::<EventView, Fault>(e)).events == log.events + seq![e],
        log_after(log, Ok::<EventView, Fault>(e)).state.current_revision == e.revision,
        log_after(log, Ok::<EventView, Fault>(e)).state.scheduled_revision
            == log.state.scheduled_revision,
        log_after(log, Ok::<EventView, Fault>(e)).state.finished_revision
            == log.state.finished_revision,
        log_after(log, Err::<EventView, Fault>(fault)) == log,
{
    assert(log.events.push(e) =~= log.events + seq![e]);
}

// ------------------------------------------------------------------- updates

/// The event of an update has what was asked for, whatever the list and the state:
/// the trimmed description, the list, the state and the normalized labels of the
/// request. It keeps when the task was created, is never dated before the task's
/// last change, and records the whole task before it. `k` is where the last event
/// of the task stands.
pub proof fn lemma_update_meaning(
    log: LogView,
    id: TaskId,
    request: UpdateTaskRequest,
    now: Timestamp,
    k: int,
)
    requires
        0 <= k < log.events.len(),
        log.events[k].task_id == id,
        forall|j: int| k < j < log.events.len() ==> (#[trigger] log.events[j]).task_id != id,
    ensures
        update_result(log, id, request, now) matches Ok(e) ==> {
            let before = log.events[k];
            &&& e.description == trimmed(request.description@)
            &&& e.list_name == request.list
            &&& e.state == request.state
            &&& e.labels == normalized(request.labels@)
            &&& e.task_id == id
            &&& e.revision == log.state.current_revision + 1
            &&& e.event_type == TaskEventType::Updated
            &&& e.created_at == before.created_at
            &&& e.updated_at == now || e.updated_at == before.updated_at
            &&& now.seconds < e.updated_at.seconds || (now.seconds == e.updated_at.seconds
                && now.nanos <= e.updated_at.nanos)
            &&& before.updated_at.seconds < e.updated_at.seconds || (before.updated_at.seconds
                == e.updated_at.seconds && before.updated_at.nanos <= e.updated_at.nanos)
            &&& e.prev_revision == Some(before.revision)
            &&& e.prev_description == Some(before.description)
            &&& e.prev_list_name == Some(before.list_name)
            &&& e.prev_state == Some(before.state)
            &&& e.prev_labels == Some(before.labels)
            &&& e.prev_updated_at == Some(before.updated_at)
        },
{
    lemma_latest(log.events, id, k);
}

/// When an update succeeds: the request names the task's last revision, the change
/// of list and state is allowed, the trimmed description has one to ten thousand
/// characters, no label is blank or has a separator in its key, at least one of
/// the four parts is another than the task has, and there is a revision left.
pub proof fn lemma_update_succeeds(
    log: LogView,
    id: TaskId,
    request: UpdateTaskRequest,
    now: Timestamp,
    k: int,
)
    requires
        is_label_map(request.labels@),
        0 <= k < log.events.len(),
        log.events[k].task_id == id,
        forall|j: int| k < j < log.events.len() ==> (#[trigger] log.events[j]).task_id != id,
    ensures
        update_result(log, id, request, now) is Ok <==> {
            let before = log.events[k];
            &&& request.metadata.revision == before.revision
            &&& change_allowed(before.list_name, before.state, request.list, request.state)
            &&& 1 <= trimmed(request.description@).len() <= 10_000
            &&& forall|key: Seq<char>| #[trigger]
                request.labels@.dom().contains(key) ==> trimmed(key).len() > 0 && trimmed(
                    request.labels@[key],
                ).len() > 0 && !key.contains(':') && !key.contains('=')
            &&& trimmed(request.description@) != before.description || request.list
                != before.list_name || request.state != before.state || normalized(request.labels@)
                != before.labels
            &&& log.state.current_revision < i64::MAX
        },
{
    lemma_latest(log.events, id, k);
    lemma_accepted_meaning(request.labels@);
}

/// An update is refused as changing nothing only if the description, the list, the
/// state and the labels that it asks for are all those that the task has.
pub proof fn lemma_update_no_change(
    log: LogView,
    id: TaskId,
    request: UpdateTaskRequest,
    now: Timestamp,
    k: int,
)
    requires
        is_label_map(request.labels@),
        0 <= k < log.events.len(),
        log.events[k].task_id == id,
        forall|j: int| k < j < log.events.len() ==> (#[trigger] log.events[j]).task_id != id,
        request.metadata.revision == log.events[k].revision,
        change_allowed(
            log.events[k].list_name,
            log.events[k].state,
            request.list,
            request.state,
        ),
        1 <= trimmed(request.description@).len() <= 10_000,
        forall|key: Seq<char>| #[trigger]
            request.labels@.dom().contains(key) ==> trimmed(key).len() > 0 && trimmed(
                request.labels@[key],
            ).len() > 0 && !key.contains(':') && !key.contains('='),
    ensures
        update_result(log, id, request, now) == Err::<EventView, Fault>(
            Fault::Validation("task update must change at least one field"@),
        ) <==> {
            let before = log.events[k];
            &&& trimmed(request.description@) == before.description
            &&& request.list == before.list_name
            &&& request.state == before.state
            &&& normalized(request.labels@) == before.labels
        },
{
    lemma_latest(log.events, id, k);
    lemma_accepted_meaning(request.labels@);
}

/// Which refusal an update meets: of a task that the log does not know, of a
/// revision that is not the task's last, of a change that is not allowed, of a
/// description that is empty or too long, of a faulty label, and of a change for
/// which there is no revision left, in this order.
pub proof fn lemma_update_refused(
    log: LogView,
    id: TaskId,
    request: UpdateTaskRequest,
    now: Timestamp,
    k: int,
)
    requires
        0 <= k < log.events.len(),
        log.events[k].task_id == id,
        forall|j: int| k < j < log.events.len() ==> (#[trigger] log.events[j]).task_id != id,
    ensures
        ({
            let before = log.events[k];
            let r = update_result(log, id, request, now);
            &&& request.metadata.revision != before.revision ==> r == Err::<EventView, Fault>(
                Fault::RevisionConflict {
                    task_id: id,
                    expected_revision: request.metadata.revision,
                    current_revision: before.revision,
                },
            )
            &&& request.metadata.revision == before.revision ==> {
                let allowed = change_allowed(
                    before.list_name,
                    before.state,
                    request.list,
                    request.state,
                );
                &&& !allowed ==> r == Err::<EventView, Fault>(
                    Fault::Conflict(
                        "cannot update task "@ + hyphenated(id) + " from "@ + list_text(
                            before.list_name,
                        ) + "/"@ + state_text(before.state) + " to "@ + list_text(request.list)
                            + "/"@ + state_text(request.state),
                    ),
                )
                &&& allowed && trimmed(request.description@).len() == 0 ==> r == Err::<
                    EventView,
                    Fault,
                >(Fault::Validation("task description must not be empty"@))
                &&& allowed && trimmed(request.description@).len() > 10_000 ==> r == Err::<
                    EventView,
                    Fault,
                >(Fault::Validation("task description must not exceed 10,000 characters"@))
                &&& allowed && 1 <= trimmed(request.description@).len() <= 10_000 && labels_fault(
                    request.labels@,
                ) is Some ==> r == Err::<EventView, Fault>(
                    Fault::Validation(labels_fault(request.labels@)->0),
                )
                &&& allowed && 1 <= trimmed(request.description@).len() <= 10_000 && labels_fault(
                    request.labels@,
                ) is None && trimmed(request.description@) != before.description
                    && log.state.current_revision == i64::MAX ==> r == Err::<EventView, Fault>(
                    Fault::Database("database or disk is full"@),
                )
            }
        }),
{
    lemma_latest(log.events, id, k);
}

/// An update of a task that no event speaks of finds nothing.
pub proof fn lemma_update_unknown(
    log: LogView,
    id: TaskId,
    request: UpdateTaskRequest,
    now: Timestamp,
)
    requires
        forall|i: int| 0 <= i < log.events.len() ==> (#[trigger] log.events[i]).task_id != id,
    ensures
        update_result(log, id, request, now) == Err::<EventView, Fault>(Fault::NotFound(id)),
{
}

/// Which changes of list and state are allowed. A task may stay where it is. The
/// archive takes any task that is not in it as trash, and one that is being done as
/// done; nothing leaves it. A pending task of the inbox or of the next actions can
/// be taken up where it is. From the inbox a pending task goes to any other list;
/// someday/maybe also takes next actions, and gives them back.
pub proof fn lemma_changes_meaning(a: TaskList, p: TaskState, b: TaskList, q: TaskState)
    ensures
        a == b && p == q ==> change_allowed(a, p, b, q),
        b == TaskList::Archive && q == TaskState::Trash && a != TaskList::Archive
            ==> change_allowed(a, p, b, q),
        b == TaskList::Archive && q == TaskState::Done && a != TaskList::Archive ==> (
        change_allowed(a, p, b, q) <==> p == TaskState::Doing),
        b == TaskList::Archive && (q == TaskState::Pending || q == TaskState::Doing)
            ==> change_allowed(a, p, b, q) == (a == b && p == q),
        a == TaskList::Archive ==> change_allowed(a, p, b, q) == (a == b && p == q),
        b != TaskList::Archive && (q == TaskState::Done || q == TaskState::Trash)
            ==> change_allowed(a, p, b, q) == (a == b && p == q),
        b != TaskList::Archive && q == TaskState::Doing && p != q ==> (change_allowed(a, p, b, q)
            <==> a == b && p == TaskState::Pending && (a == TaskList::Inbox || a
            == TaskList::NextAction)),
        q == TaskState::Doing && p == q ==> (change_allowed(a, p, b, q) <==> a == b),
        b == TaskList::Inbox && q == TaskState::Pending ==> change_allowed(a, p, b, q) == (a == b
            && p == q),
        b == TaskList::WaitingFor && q == TaskState::Pending && a != b ==> (change_allowed(
            a,
            p,
            b,
            q,
        ) <==> a == TaskList::Inbox && p == TaskState::Pending),
        b == TaskList::NextAction && q == TaskState::Pending && a != b ==> (change_allowed(
            a,
            p,
            b,
            q,
        ) <==> p == TaskState::Pending && (a == TaskList::Inbox || a == TaskList::SomedayMaybe)),
        b == TaskList::SomedayMaybe && q == TaskState::Pending && a != b ==> (change_allowed(
            a,
            p,
            b,
            q,
        ) <==> (a == TaskList::Inbox && p == TaskState::Pending) || (a == TaskList::NextAction && (p
            == TaskState::Pending || p == TaskState::Doing))),
        b != TaskList::Archive && a == b && q == TaskState::Pending && p != q ==> !change_allowed(
            a,
            p,
            b,
            q,
        ),
{
}

// --------------------------------------------------------------------- lists

/// A list holds the tasks, as their last events left them, whose list and state
/// are those asked for and which have every `key:value` pair asked for: all of
/// them, no others, each once, by time of creation and then by identifier.
pub proof fn lemma_listing_meaning(
    s: Seq<EventView>,
    f: FilterView,
    tasks: Seq<TaskView>,
    t: TaskView,
)
    requires
        is_listing(s, f, tasks),
    ensures
        tasks.contains(t) <==> {
            &&& exists|j: int|
                0 <= j < s.len() && t == (#[trigger] s[j]).task() && forall|i: int|
                    j < i < s.len() ==> (#[trigger] s[i]).task_id != s[j].task_id
            &&& f.list is None || f.list == Some(t.list)
            &&& f.state is None || f.state == Some(t.state)
            &&& forall|k: Seq<char>, v: Seq<char>| #[trigger]
                f.labels.contains_pair(k, v) ==> t.labels.contains_pair(k, v)
        },
        forall|a: int, b: int|
            0 <= a < b < tasks.len() ==> {
                let x = #[trigger] tasks[a];
                let y = #[trigger] tasks[b];
                ||| x.created_at.seconds < y.created_at.seconds
                ||| x.created_at.seconds == y.created_at.seconds && x.created_at.nanos
                    < y.created_at.nanos
                ||| x.created_at == y.created_at && x.id < y.id
            },
{
    lemma_filter_meaning(f, t);
    assert(tasks.contains(t) <==> wanted_task(s, f, t));
    if wanted_task(s, f, t) {
        let j = choose|j: int| wanted(s, f, j) && t == s[j].task();
        assert(wanted(s, f, j));
        assert(latest_at(s, j));
        assert(t == s[j].task());
    }
    if f.matches(t) && exists|j: int|
        0 <= j < s.len() && t == (#[trigger] s[j]).task() && forall|i: int|
            j < i < s.len() ==> (#[trigger] s[i]).task_id != s[j].task_id {
        let j = choose|j: int|
            0 <= j < s.len() && t == (#[trigger] s[j]).task() && forall|i: int|
                j < i < s.len() ==> (#[trigger] s[i]).task_id != s[j].task_id;
        assert(latest_at(s, j));
        assert(wanted(s, f, j));
    }
    assert forall|a: int, b: int| 0 <= a < b < tasks.len() implies {
        let x = #[trigger] tasks[a];
        let y = #[trigger] tasks[b];
        ||| x.created_at.seconds < y.created_at.seconds
        ||| x.created_at.seconds == y.created_at.seconds && x.created_at.nanos
            < y.created_at.nanos
        ||| x.created_at == y.created_at && x.id < y.id
    } by {
        assert(listed_before(tasks[a], tasks[b]));
    }
}

// ------------------------------------------------------------------- reading

/// Reading the log gives the events from the asked revision on, one for one and in
/// order, as many as asked for but at least one and at most a thousand. `k` is
/// where they begin.
pub proof fn lemma_replay_meaning(
    s: Seq<EventView>,
    state: RevisionState,
    start: i64,
    limit: i64,
    k: int,
)
    requires
        0 <= k <= s.len(),
        forall|i: int| 0 <= i < k ==> (#[trigger] s[i]).revision < start,
        forall|i: int| k <= i < s.len() ==> (#[trigger] s[i]).revision >= start,
    ensures
        start <= state.scheduled_revision ==> replay(s, state, start, limit) == Err::<
            Seq<WatchView>,
            Fault,
        >(Fault::Compacted { requested: start, compacted_revision: state.scheduled_revision }),
        start > state.scheduled_revision && start > state.current_revision + 1 ==> replay(
            s,
            state,
            start,
            limit,
        ) == Err::<Seq<WatchView>, Fault>(
            Fault::FutureRevision { requested: start, current_revision: state.current_revision },
        ),
        replay(s, state, start, limit) matches Ok(w) ==> {
            let n = s.len() - k;
            &&& state.scheduled_revision < start <= state.current_revision + 1
            &&& 1 <= limit <= 1000 ==> w.len() == if n <= limit {
                n
            } else {
                limit as int
            }
            &&& limit < 1 ==> w.len() == if n <= 1 {
                n
            } else {
                1
            }
            &&& limit > 1000 ==> w.len() == if n <= 1000 {
                n
            } else {
                1000
            }
            &&& forall|i: int|
                0 <= i < w.len() ==> (#[trigger] w[i]).event_type == s[k + i].event_type
                    && w[i].task == s[k + i].task() && w[i].prev_task == s[k + i].prev_task()
        },
        state.scheduled_revision < start <= state.current_revision + 1 && (forall|i: int|
            k <= i < s.len() ==> (#[trigger] s[i]).prev_revision is None || s[i].prev_task()
                is Some) ==> replay(s, state, start, limit) is Ok,
{
    let p = |e: EventView| e.revision >= start;
    assert(from_revision(s, start) == s.skip(k)) by {
        lemma_filter_suffix(s, p, k);
    }
    let b = batch(s, start, limit);
    assert forall|i: int| 0 <= i < b.len() implies (#[trigger] b[i]) == s[k + i] by {}
    if replay(s, state, start, limit) is Ok {
        let w = replay(s, state, start, limit)->Ok_0;
        assert forall|i: int| 0 <= i < w.len() implies (#[trigger] w[i]).event_type == s[k
            + i].event_type && w[i].task == s[k + i].task() && w[i].prev_task == s[k
            + i].prev_task() by {
            assert(w[i] == watch_of(b[i]));
        }
    }
    if state.scheduled_revision < start <= state.current_revision + 1 && (forall|i: int|
        k <= i < s.len() ==> (#[trigger] s[i]).prev_revision is None || s[i].prev_task() is Some) {
        assert forall|i: int| !first_incomplete(b, i) by {
            if first_incomplete(b, i) {
                assert(b[i] == s[k + i]);
            }
        }
    }
}

/// Reading stops at an event that names an earlier revision without recording the
/// task before it, and says which. `m` is how far into the reading it stands.
pub proof fn lemma_replay_incomplete(
    s: Seq<EventView>,
    state: RevisionState,
    start: i64,
    limit: i64,
    k: int,
    m: int,
)
    requires
        0 <= k <= s.len(),
        forall|i: int| 0 <= i < k ==> (#[trigger] s[i]).revision < start,
        forall|i: int| k <= i < s.len() ==> (#[trigger] s[i]).revision >= start,
        state.scheduled_revision < start <= state.current_revision + 1,
        0 <= m < limit <= 1000,
        k + m < s.len(),
        s[k + m].prev_revision is Some,
        s[k + m].prev_task() is None,
        forall|i: int|
            k <= i < k + m ==> (#[trigger] s[i]).prev_revision is None || s[i].prev_task() is Some,
    ensures
        replay(s, state, start, limit) == Err::<Seq<WatchView>, Fault>(
            Fault::Database(
                "task event "@ + decimal(s[k + m].revision as int)
                    + " has an incomplete previous state"@,
            ),
        ),
{
    let p = |e: EventView| e.revision >= start;
    assert(from_revision(s, start) == s.skip(k)) by {
        lemma_filter_suffix(s, p, k);
    }
    let b = batch(s, start, limit);
    assert forall|i: int| 0 <= i < b.len() implies (#[trigger] b[i]) == s[k + i] by {}
    assert(b[m] == s[k + m]);
    assert(first_incomplete(b, m));
    let c = choose|i: int| first_incomplete(b, i);
    assert(first_incomplete(b, c));
    if c < m {
        assert(b[c] == s[k + c]);
        assert(incomplete(b[c]));
    } else if m < c {
        assert(!incomplete(b[m]));
    }
}

// ---------------------------------------------------------------- compaction

/// Compaction removes an event if and only if the same task has a later event at
/// or before the target, and keeps the order of the others.
pub proof fn lemma_compaction_meaning(s: Seq<EventView>, target: i64, e: EventView)
    requires
        revisions_ascend(s),
    ensures
        compacted(s, target).contains(e) <==> s.contains(e) && !exists|i: int|
            0 <= i < s.len() && (#[trigger] s[i]).task_id == e.task_id && e.revision
                < s[i].revision <= target,
        revisions_ascend(compacted(s, target)),
{
    let st = stamps(s);
    let p = |x: EventView| !superseded(st, stamp(x), target);
    lemma_filter_members(s, p, e);
    lemma_filter_keeps_order(s, p);
    if superseded(st, stamp(e), target) {
        let j = choose|j: int|
            0 <= j < st.len() && (#[trigger] st[j]).1 == e.task_id && e.revision < st[j].0
                <= target;
        assert(st[j] == stamp(s[j]));
        assert(s[j].task_id == e.task_id);
    }
    if exists|i: int|
        0 <= i < s.len() && (#[trigger] s[i]).task_id == e.task_id && e.revision < s[i].revision
            <= target {
        let i = choose|i: int|
            0 <= i < s.len() && (#[trigger] s[i]).task_id == e.task_id && e.revision
                < s[i].revision <= target;
        assert(st[i] == stamp(s[i]));
        assert(superseded(st, stamp(e), target));
    }
}

/// Removing revisions removes the events that have them and no others.
pub proof fn lemma_without_meaning(s: Seq<EventView>, revisions: Seq<i64>, e: EventView)
    requires
        revisions_ascend(s),
    ensures
        without(s, revisions).contains(e) <==> s.contains(e) && !revisions.contains(e.revision),
        revisions_ascend(without(s, revisions)),
{
    let p = |x: EventView| !revisions.contains(x.revision);
    lemma_filter_members(s, p, e);
    lemma_filter_keeps_order(s, p);
}

proof fn lemma_stamps_filtered(st: Seq<Stamp>, p: spec_fn(Stamp) -> bool)
    requires
        stamps_ascend(st),
    ensures
        stamps_ascend(st.filter(p)),
        forall|x: Stamp| #[trigger] st.filter(p).contains(x) <==> st.contains(x) && p(x),
    decreases st.len(),
{
    reveal(Seq::filter);
    if st.len() > 0 {
        let front = st.drop_last();
        let last = st.last();
        let kept = front.filter(p);
        assert(stamps_ascend(front));
        lemma_stamps_filtered(front, p);
        let all = st.filter(p);
        assert forall|i: int, j: int| 0 <= i < j < all.len() implies (#[trigger] all[i]).0 < (
        #[trigger] all[j]).0 by {
            if j == kept.len() {
                assert(kept.contains(kept[i]));
                assert(front.contains(kept[i]));
                let k = choose|k: int| 0 <= k < front.len() && front[k] == kept[i];
                assert(st[k].0 < st[st.len() - 1].0);
            }
        }
    }
    assert forall|x: Stamp| #[trigger] st.filter(p).contains(x) <==> st.contains(x) && p(x) by {
        lemma_filter_members(st, p, x);
    }
}

/// One step of garbage collection takes revisions of superseded events only, up to
/// a thousand of them, in ascending order; it leaves one out only if it has taken a
/// thousand lower ones.
pub proof fn lemma_garbage_meaning(st: Seq<Stamp>, target: i64, x: Stamp)
    requires
        stamps_ascend(st),
        st.contains(x),
    ensures
        ({
            let batch = garbage_batch(st, target);
            let superseded_here = exists|j: int|
                0 <= j < st.len() && (#[trigger] st[j]).1 == x.1 && x.0 < st[j].0 <= target;
            &&& batch.len() <= 1000
            &&& forall|i: int, j: int| 0 <= i < j < batch.len() ==> batch[i] < batch[j]
            &&& batch.contains(x.0) ==> superseded_here
            &&& superseded_here && !batch.contains(x.0) ==> batch.len() == 1000 && forall|i: int|
                0 <= i < batch.len() ==> #[trigger] batch[i] < x.0
        }),
{
    let p = |y: Stamp| superseded(st, y, target);
    lemma_stamps_filtered(st, p);
    let kept = st.filter(p);
    let all = garbage(st, target);
    let batch = garbage_batch(st, target);
    assert(all.len() == kept.len());
    assert forall|i: int| 0 <= i < all.len() implies #[trigger] all[i] == kept[i].0 by {}
    if batch.contains(x.0) {
        let i = choose|i: int| 0 <= i < batch.len() && batch[i] == x.0;
        assert(all[i] == x.0);
        assert(kept.contains(kept[i]));
        assert(st.contains(kept[i]));
        let a = choose|a: int| 0 <= a < st.len() && st[a] == kept[i];
        let b = choose|b: int| 0 <= b < st.len() && st[b] == x;
        assert(a == b) by {
            if a < b {
                assert(st[a].0 < st[b].0);
            } else if b < a {
                assert(st[b].0 < st[a].0);
            }
        }
        assert(superseded(st, x, target));
    }
    if exists|j: int| 0 <= j < st.len() && (#[trigger] st[j]).1 == x.1 && x.0 < st[j].0 <= target {
        assert(superseded(st, x, target));
        assert(kept.contains(x));
        let i = choose|i: int| 0 <= i < kept.len() && kept[i] == x;
        if !batch.contains(x.0) {
            assert(all[i] == x.0);
            if i < batch.len() {
                assert(batch[i] == x.0);
            }
            assert forall|m: int| 0 <= m < batch.len() implies #[trigger] batch[m] < x.0 by {
                assert(batch[m] == all[m]);
                assert(kept[m].0 < kept[i].0);
            }
        }
    }
}

/// Each revision that a step of garbage collection takes is that of an event.
pub proof fn lemma_garbage_is_known(st: Seq<Stamp>, target: i64, r: i64)
    requires
        stamps_ascend(st),
        garbage_batch(st, target).contains(r),
    ensures
        exists|i: int| 0 <= i < st.len() && (#[trigger] st[i]).0 == r,
{
    let p = |y: Stamp| superseded(st, y, target);
    lemma_stamps_filtered(st, p);
    let kept = st.filter(p);
    let batch = garbage_batch(st, target);
    let i = choose|i: int| 0 <= i < batch.len() && batch[i] == r;
    assert(garbage(st, target)[i] == kept[i].0);
    assert(kept.contains(kept[i]));
    let a = choose|a: int| 0 <= a < st.len() && st[a] == kept[i];
    assert(st[a].0 == r);
}

/// History can be closed through a revision if it is not closed further and the log
/// has come so far; otherwise the refusal says which of the two fails.
pub proof fn lemma_compact_fault_meaning(state: RevisionState, target: i64)
    ensures
        compact_fault(state, target) is None <==> state.scheduled_revision <= target
            <= state.current_revision,
        target < state.scheduled_revision ==> compact_fault(state, target) == Some(
            Fault::Conflict(
                "compact revision cannot move backward from "@ + decimal(
                    state.scheduled_revision as int,
                ) + " to "@ + decimal(target as int),
            ),
        ),
        target >= state.scheduled_revision && target > state.current_revision ==> compact_fault(
            state,
            target,
        ) == Some(
            Fault::FutureRevision {
                requested: target,
                current_revision: state.current_revision,
            },
        ),
{
}

/// Finishing a compaction moves the last watermark to the target, never back and
/// never past what was closed, and moves nothing else.
pub proof fn lemma_finish_meaning(state: RevisionState, target: i64)
    ensures
        finished_state(state, target).current_revision == state.current_revision,
        finished_state(state, target).scheduled_revision == state.scheduled_revision,
        state.finished_revision <= target <= state.scheduled_revision ==> finished_state(
            state,
            target,
        ).finished_revision == target,
        !(state.finished_revision <= target <= state.scheduled_revision) ==> finished_state(
            state,
            target,
        ).finished_revision == state.finished_revision,
{
}

} // verus!
