//! What holds of every log that grows by creating and updating tasks and shrinks
//! by compaction: the events of a task form a chain in which each records the
//! state that the one before it left.

use vstd::prelude::*;
use crate::compaction::{compacted, garbage, garbage_batch, lemma_batch_is_garbage};
use crate::compaction::{lemma_filter_keeps_order, lemma_garbage_members};
use crate::compaction::{lemma_revision_identifies, stamp, stamps, superseded, without, Stamp};
use crate::domain::{earlier, EventView, TaskEventType, TaskId, TaskList, TaskState};
use crate::domain::{Timestamp, UpdateTaskRequest};
use crate::ids::is_version_7;
use crate::labels::{is_label_map, LabelMap};
use crate::repository::{create_result, has_task, latest, latest_at, lemma_latest};
use crate::repository::{lemma_latest_exists, log_after, revisions_ascend, state_valid};
use crate::repository::{update_result, LogView, RevisionState};
use crate::rules::{change_allowed, description_fault, labels_fault, lemma_accepted_labels};
use crate::rules::{lemma_change_keeps_place_valid, lemma_normalized_stable, normalized};
use crate::rules::{place_valid, faulty_at};
use crate::sequences::lemma_filter_members;
use crate::text::{lemma_trimmed_idempotent, trimmed};

verus! {

/// `b` records as its past just what `a` left.
pub open spec fn follows(a: EventView, b: EventView) -> bool {
    &&& b.prev_revision == Some(a.revision)
    &&& b.prev_task() == Some(a.task())
}

/// `a` is the event of its task right before `b`.
pub open spec fn preceding(s: Seq<EventView>, a: EventView, b: EventView) -> bool {
    &&& s.contains(a)
    &&& s.contains(b)
    &&& a.task_id == b.task_id
    &&& a.revision < b.revision
    &&& forall|c: EventView| #[trigger]
        s.contains(c) && c.task_id == b.task_id ==> c.revision <= a.revision || b.revision
            <= c.revision
}

/// `b` is the first event of its task.
pub open spec fn first_event(s: Seq<EventView>, b: EventView) -> bool {
    &&& s.contains(b)
    &&& forall|c: EventView| #[trigger]
        s.contains(c) && c.task_id == b.task_id ==> b.revision <= c.revision
}

/// The event creates a task: in the inbox, without labels and without a past.
pub open spec fn is_root(e: EventView) -> bool {
    &&& e.event_type == TaskEventType::Created
    &&& e.prev_revision is None
    &&& e.prev_description is None
    &&& e.prev_list_name is None
    &&& e.prev_state is None
    &&& e.prev_labels is None
    &&& e.prev_updated_at is None
    &&& e.list_name == TaskList::Inbox
    &&& e.state == TaskState::Pending
    &&& e.labels == LabelMap::empty()
    &&& e.created_at == e.updated_at
}

/// The event changes a task: it records all of the state before, and the change
/// is an allowed one.
pub open spec fn is_change(e: EventView) -> bool {
    &&& e.event_type == TaskEventType::Updated
    &&& e.has_previous()
    &&& e.prev_revision->0 < e.revision
    &&& change_allowed(e.prev_list_name->0, e.prev_state->0, e.list_name, e.state)
    &&& !earlier(e.updated_at, e.prev_updated_at->0)
}

/// What holds of each event by itself.
pub open spec fn event_sound(e: EventView) -> bool {
    &&& is_version_7(e.task_id)
    &&& is_root(e) || is_change(e)
    &&& place_valid(e.list_name, e.state)
    &&& description_fault(e.description) is None
    &&& trimmed(e.description) == e.description
    &&& labels_fault(e.labels) is None
    &&& normalized(e.labels) == e.labels
}

/// Each event that is not the first of its task follows the one before it; the
/// first creates the task, unless what it followed has been compacted.
pub open spec fn chained(s: Seq<EventView>, scheduled: i64) -> bool {
    &&& forall|a: EventView, b: EventView| #[trigger] preceding(s, a, b) ==> follows(a, b)
    &&& forall|b: EventView| #[trigger]
        first_event(s, b) ==> is_root(b) || (b.prev_revision is Some && b.prev_revision->0
            <= scheduled)
}

/// Nothing at or before `finished` is superseded.
pub open spec fn cleaned_up(s: Seq<EventView>, finished: i64) -> bool {
    forall|i: int|
        0 <= i < s.len() ==> !superseded(stamps(s), stamp(#[trigger] s[i]), finished)
}

impl LogView {
    /// The current revision is that of the last event.
    pub open spec fn ends_at_current(self) -> bool {
        if self.events.len() == 0 {
            self.state.current_revision == 0
        } else {
            self.events.last().revision == self.state.current_revision
        }
    }

    /// What every log satisfies that began empty.
    pub open spec fn consistent(self) -> bool {
        &&& self.valid()
        &&& self.ends_at_current()
        &&& forall|i: int| 0 <= i < self.events.len() ==> event_sound(#[trigger] self.events[i])
        &&& chained(self.events, self.state.scheduled_revision)
        &&& cleaned_up(self.events, self.state.finished_revision)
    }
}

/// The log without events and watermarks is consistent.
pub proof fn lemma_empty_consistent(log: LogView)
    requires
        log.events.len() == 0,
        log.state == (RevisionState {
            current_revision: 0,
            scheduled_revision: 0,
            finished_revision: 0,
        }),
    ensures
        log.consistent(),
{
}

// -------------------------------------------------------------------- chains

/// An event that is not the first of its task has one right before it.
pub proof fn lemma_preceding_exists(s: Seq<EventView>, b: EventView) -> (a: EventView)
    requires
        revisions_ascend(s),
        s.contains(b),
        !first_event(s, b),
    ensures
        preceding(s, a, b),
{
    let c = choose|c: EventView| #[trigger]
        s.contains(c) && c.task_id == b.task_id && c.revision < b.revision;
    let i = choose|i: int| 0 <= i < s.len() && s[i] == c;
    lemma_preceding_from(s, b, i)
}

proof fn lemma_preceding_from(s: Seq<EventView>, b: EventView, i: int) -> (a: EventView)
    requires
        revisions_ascend(s),
        s.contains(b),
        0 <= i < s.len(),
        s[i].task_id == b.task_id,
        s[i].revision < b.revision,
    ensures
        preceding(s, a, b),
    decreases s.len() - i,
{
    assert(s.contains(s[i]));
    if preceding(s, s[i], b) {
        s[i]
    } else {
        let c = choose|c: EventView| #[trigger]
            s.contains(c) && c.task_id == b.task_id && s[i].revision < c.revision < b.revision;
        let j = choose|j: int| 0 <= j < s.len() && s[j] == c;
        if j < i {
            assert(s[j].revision < s[i].revision);
        }
        lemma_preceding_from(s, b, j)
    }
}

/// No task is created twice.
pub proof fn lemma_one_root(log: LogView, a: EventView, b: EventView)
    requires
        log.consistent(),
        log.events.contains(a),
        log.events.contains(b),
        a.task_id == b.task_id,
        a.prev_revision is None,
        b.prev_revision is None,
    ensures
        a == b,
{
    let s = log.events;
    let i = choose|i: int| 0 <= i < s.len() && s[i] == a;
    let j = choose|j: int| 0 <= j < s.len() && s[j] == b;
    if a.revision < b.revision {
        let c = lemma_preceding_exists(s, b);
        assert(follows(c, b));
    } else if b.revision < a.revision {
        let c = lemma_preceding_exists(s, a);
        assert(follows(c, a));
    } else {
        lemma_revision_identifies(s, i, j);
    }
}

/// Along the events of a task the time of creation stays and the time of the last
/// update never goes back.
pub proof fn lemma_times_along_task(log: LogView, a: EventView, b: EventView)
    requires
        log.consistent(),
        log.events.contains(a),
        log.events.contains(b),
        a.task_id == b.task_id,
        a.revision <= b.revision,
    ensures
        a.created_at == b.created_at,
        !earlier(b.updated_at, a.updated_at),
    decreases b.revision - a.revision,
{
    let s = log.events;
    let i = choose|i: int| 0 <= i < s.len() && s[i] == a;
    let j = choose|j: int| 0 <= j < s.len() && s[j] == b;
    if a.revision == b.revision {
        lemma_revision_identifies(s, i, j);
    } else {
        let c = lemma_preceding_exists(s, b);
        assert(follows(c, b));
        assert(event_sound(s[j]));
        assert(s.contains(a) && a.task_id == b.task_id);
        lemma_times_along_task(log, a, c);
    }
}

// -------------------------------------------------------------------- growth

proof fn lemma_pushed_members(s: Seq<EventView>, e: EventView, x: EventView)
    ensures
        s.push(e).contains(x) <==> s.contains(x) || x == e,
{
    let t = s.push(e);
    if s.contains(x) {
        let i = choose|i: int| 0 <= i < s.len() && s[i] == x;
        assert(t[i] == x);
    }
    assert(t[s.len() as int] == e);
    if t.contains(x) {
        let i = choose|i: int| 0 <= i < t.len() && t[i] == x;
        if i < s.len() {
            assert(s[i] == x);
        }
    }
}

proof fn lemma_append_consistent(log: LogView, e: EventView)
    requires
        log.consistent(),
        e.revision == log.state.current_revision + 1,
        event_sound(e),
        has_task(log.events, e.task_id) ==> follows(latest(log.events, e.task_id), e),
        !has_task(log.events, e.task_id) ==> is_root(e),
    ensures
        log.append(e).consistent(),
{
    let s = log.events;
    let t = s.push(e);
    let after = log.append(e);
    assert forall|x: EventView| #[trigger] t.contains(x) <==> s.contains(x) || x == e by {
        lemma_pushed_members(s, e, x);
    }
    assert forall|x: EventView| #[trigger] s.contains(x) implies x.revision < e.revision by {
        let i = choose|i: int| 0 <= i < s.len() && s[i] == x;
    }
    assert(after.valid()) by {
        assert forall|i: int, j: int| 0 <= i < j < t.len() implies (#[trigger] t[i]).revision < (
        #[trigger] t[j]).revision by {
            assert(t[i] == s[i]);
            assert(s.contains(s[i]));
            if j < s.len() {
                assert(t[j] == s[j]);
            }
        }
        assert forall|i: int| 0 <= i < t.len() implies 1 <= (#[trigger] t[i]).revision
            <= after.state.current_revision by {
            if i < s.len() {
                assert(t[i] == s[i]);
            }
        }
    }
    assert forall|i: int| 0 <= i < t.len() implies event_sound(#[trigger] t[i]) by {
        if i < s.len() {
            assert(t[i] == s[i]);
        }
    }
    assert(chained(t, log.state.scheduled_revision)) by {
        assert forall|a: EventView, b: EventView| #[trigger] preceding(t, a, b) implies follows(
            a,
            b,
        ) by {
            assert(t.contains(a) && t.contains(b));
            if b != e {
                assert(s.contains(b) && s.contains(a));
                assert forall|c: EventView| #[trigger]
                    s.contains(c) && c.task_id == b.task_id implies c.revision <= a.revision
                    || b.revision <= c.revision by {
                    assert(t.contains(c));
                }
                assert(preceding(s, a, b));
            } else {
                assert(s.contains(a));
                let i = choose|i: int| 0 <= i < s.len() && s[i] == a;
                assert(s[i].task_id == e.task_id);
                let k = lemma_latest_exists(s, i);
                lemma_latest(s, e.task_id, k);
                assert(t.contains(s[k])) by {
                    assert(s.contains(s[k]));
                }
                if i < k {
                    assert(s[i].revision < s[k].revision);
                }
                assert(s[k] == a);
            }
        }
        assert forall|b: EventView| #[trigger] first_event(t, b) implies is_root(b) || (
        b.prev_revision is Some && b.prev_revision->0 <= log.state.scheduled_revision) by {
            assert(t.contains(b));
            if b != e {
                assert(s.contains(b));
                assert forall|c: EventView| #[trigger]
                    s.contains(c) && c.task_id == b.task_id implies b.revision <= c.revision by {
                    assert(t.contains(c));
                }
                assert(first_event(s, b));
            } else if has_task(s, e.task_id) {
                let i = choose|i: int| 0 <= i < s.len() && (#[trigger] s[i]).task_id == e.task_id;
                assert(s.contains(s[i]));
                assert(t.contains(s[i]));
            }
        }
    }
    let f = log.state.finished_revision;
    assert forall|i: int| 0 <= i < t.len() implies !superseded(
        stamps(t),
        stamp(#[trigger] t[i]),
        f,
    ) by {
        let x = stamp(t[i]);
        if superseded(stamps(t), x, f) {
            let j = choose|j: int|
                0 <= j < stamps(t).len() && (#[trigger] stamps(t)[j]).1 == x.1 && x.0 < stamps(
                    t,
                )[j].0 <= f;
            assert(stamps(t)[j] == stamp(t[j]));
            assert(j < s.len());
            assert(stamps(s)[j] == stamp(s[j]));
            assert(i < s.len()) by {
                if i == s.len() {
                    assert(t[i] == e);
                }
            }
            assert(t[i] == s[i]);
            assert(superseded(stamps(s), stamp(s[i]), f));
        }
    }
}

/// Creating a task under a new identifier keeps the log consistent.
pub proof fn lemma_create_consistent(
    log: LogView,
    id: TaskId,
    description: Seq<char>,
    now: Timestamp,
)
    requires
        log.consistent(),
        is_version_7(id),
        !has_task(log.events, id),
    ensures
        log_after(log, create_result(log, id, description, now)).consistent(),
{
    let r = create_result(log, id, description, now);
    if r is Ok {
        let e = r->Ok_0;
        lemma_trimmed_idempotent(description);
        lemma_normalized_stable(LabelMap::empty());
        assert(labels_fault(LabelMap::empty()) is None) by {
            assert forall|k: Seq<char>| !faulty_at(LabelMap::empty(), k) by {}
        }
        assert(e.labels =~= LabelMap::empty());
        assert(is_root(e));
        lemma_append_consistent(log, e);
    }
}

/// Updating a task keeps the log consistent.
pub proof fn lemma_update_consistent(
    log: LogView,
    id: TaskId,
    request: UpdateTaskRequest,
    now: Timestamp,
)
    requires
        log.consistent(),
        is_label_map(request.labels@),
    ensures
        log_after(log, update_result(log, id, request, now)).consistent(),
{
    let r = update_result(log, id, request, now);
    if r is Ok {
        let e = r->Ok_0;
        let s = log.events;
        let i = choose|i: int| 0 <= i < s.len() && (#[trigger] s[i]).task_id == id;
        let k = lemma_latest_exists(s, i);
        lemma_latest(s, id, k);
        let before = s[k];
        assert(event_sound(before));
        assert(e.prev_task() == Some(before.task()));
        lemma_trimmed_idempotent(request.description@);
        lemma_accepted_labels(request.labels@);
        lemma_change_keeps_place_valid(
            before.list_name,
            before.state,
            request.list,
            request.state,
        );
        assert(is_change(e));
        lemma_append_consistent(log, e);
    }
}

// ----------------------------------------------------------------- shrinkage

/// Only superseded events are removed, and of each task the earliest first.
pub open spec fn removable(s: Seq<EventView>, keep: spec_fn(EventView) -> bool, target: i64) -> bool {
    &&& forall|c: EventView| #[trigger]
        s.contains(c) && !keep(c) ==> superseded(stamps(s), stamp(c), target)
    &&& forall|a: EventView, c: EventView|
        #![trigger s.contains(a), s.contains(c)]
        s.contains(a) && s.contains(c) && a.task_id == c.task_id && a.revision < c.revision
            && !keep(c) ==> !keep(a)
}

/// Removing superseded events leaves the last event of every task.
pub proof fn lemma_latest_after_removal(
    s: Seq<EventView>,
    keep: spec_fn(EventView) -> bool,
    target: i64,
    id: TaskId,
)
    requires
        revisions_ascend(s),
        forall|c: EventView| #[trigger]
            s.contains(c) && !keep(c) ==> superseded(stamps(s), stamp(c), target),
    ensures
        has_task(s.filter(keep), id) <==> has_task(s, id),
        has_task(s, id) ==> latest(s.filter(keep), id) == latest(s, id),
{
    let t = s.filter(keep);
    lemma_filter_keeps_order(s, keep);
    if has_task(t, id) {
        let i = choose|i: int| 0 <= i < t.len() && (#[trigger] t[i]).task_id == id;
        assert(t.contains(t[i]));
        lemma_filter_members(s, keep, t[i]);
        let j = choose|j: int| 0 <= j < s.len() && s[j] == t[i];
        assert(s[j].task_id == id);
    }
    if has_task(s, id) {
        let i = choose|i: int| 0 <= i < s.len() && (#[trigger] s[i]).task_id == id;
        let k = lemma_latest_exists(s, i);
        lemma_latest(s, id, k);
        let e = s[k];
        assert(s.contains(e));
        assert(!superseded(stamps(s), stamp(e), target)) by {
            if superseded(stamps(s), stamp(e), target) {
                let st = stamps(s);
                let j = choose|j: int|
                    0 <= j < st.len() && (#[trigger] st[j]).1 == e.task_id && e.revision
                        < st[j].0 <= target;
                assert(st[j] == stamp(s[j]));
                if j < k {
                    assert(s[j].revision < s[k].revision);
                } else if k < j {
                    assert(s[j].task_id != s[k].task_id);
                }
            }
        }
        lemma_filter_members(s, keep, e);
        let m = choose|m: int| 0 <= m < t.len() && t[m] == e;
        assert(latest_at(t, m)) by {
            assert forall|j: int| m < j < t.len() implies (#[trigger] t[j]).task_id
                != t[m].task_id by {
                assert(t[m].revision < t[j].revision);
                assert(t.contains(t[j]));
                lemma_filter_members(s, keep, t[j]);
                let x = choose|x: int| 0 <= x < s.len() && s[x] == t[j];
                if x < k {
                    assert(s[x].revision < s[k].revision);
                } else if k < x {
                    assert(s[x].task_id != s[k].task_id);
                }
            }
        }
        lemma_latest(t, id, m);
    }
}

proof fn lemma_removal_consistent(
    log: LogView,
    keep: spec_fn(EventView) -> bool,
    target: i64,
    after: LogView,
)
    requires
        log.consistent(),
        removable(log.events, keep, target),
        after.events == log.events.filter(keep),
        after.state.current_revision == log.state.current_revision,
        log.state.scheduled_revision <= after.state.scheduled_revision,
        target <= after.state.scheduled_revision,
        state_valid(after.state),
        cleaned_up(after.events, after.state.finished_revision),
    ensures
        after.consistent(),
{
    let s = log.events;
    let t = after.events;
    let scheduled = after.state.scheduled_revision;
    lemma_filter_keeps_order(s, keep);
    assert forall|x: EventView| #[trigger] t.contains(x) <==> s.contains(x) && keep(x) by {
        lemma_filter_members(s, keep, x);
    }
    assert forall|i: int| 0 <= i < t.len() implies event_sound(#[trigger] t[i]) && 1
        <= t[i].revision <= after.state.current_revision by {
        assert(t.contains(t[i]));
        let k = choose|k: int| 0 <= k < s.len() && s[k] == t[i];
        assert(event_sound(s[k]));
    }
    assert(after.ends_at_current()) by {
        if s.len() > 0 {
            let e = s.last();
            assert(s[s.len() - 1] == e);
            assert(s.contains(e));
            if !keep(e) {
                let st = stamps(s);
                let j = choose|j: int|
                    0 <= j < st.len() && (#[trigger] st[j]).1 == e.task_id && e.revision
                        < st[j].0 <= target;
                assert(st[j] == stamp(s[j]));
                assert(s[j].revision <= e.revision);
            }
            assert(t.contains(e));
            let m = choose|m: int| 0 <= m < t.len() && t[m] == e;
            if m < t.len() - 1 {
                assert(t[m].revision < t[t.len() - 1].revision);
                assert(t.contains(t[t.len() - 1]));
            }
        } else {
            if t.len() > 0 {
                assert(t.contains(t[0]));
            }
        }
    }
    assert(chained(t, scheduled)) by {
        assert forall|a: EventView, b: EventView| #[trigger] preceding(t, a, b) implies follows(
            a,
            b,
        ) by {
            assert(t.contains(a) && t.contains(b));
            assert(s.contains(a) && s.contains(b));
            assert forall|c: EventView| #[trigger]
                s.contains(c) && c.task_id == b.task_id implies c.revision <= a.revision
                || b.revision <= c.revision by {
                if keep(c) {
                    assert(t.contains(c));
                } else if a.revision < c.revision {
                    assert(s.contains(a) && s.contains(c));
                    assert(!keep(a));
                }
            }
            assert(preceding(s, a, b));
        }
        assert forall|b: EventView| #[trigger] first_event(t, b) implies is_root(b) || (
        b.prev_revision is Some && b.prev_revision->0 <= scheduled) by {
            assert(t.contains(b));
            assert(s.contains(b));
            if !first_event(s, b) {
                let c = lemma_preceding_exists(s, b);
                assert(follows(c, b));
                assert(s.contains(c));
                if keep(c) {
                    assert(t.contains(c));
                }
                assert(superseded(stamps(s), stamp(c), target));
            }
        }
    }
}

proof fn lemma_garbage_ascends(st: Seq<Stamp>, p: spec_fn(Stamp) -> bool)
    requires
        forall|i: int, j: int| 0 <= i < j < st.len() ==> (#[trigger] st[i]).0 < (#[trigger] st[j]).0,
    ensures
        forall|i: int, j: int|
            0 <= i < j < st.filter(p).len() ==> (#[trigger] st.filter(p)[i]).0 < (
            #[trigger] st.filter(p)[j]).0,
    decreases st.len(),
{
    reveal(Seq::filter);
    if st.len() > 0 {
        let front = st.drop_last();
        assert forall|i: int, j: int| 0 <= i < j < front.len() implies (#[trigger] front[i]).0 < (
        #[trigger] front[j]).0 by {
            assert(st[i].0 < st[j].0);
        }
        lemma_garbage_ascends(front, p);
        let kept = front.filter(p);
        if p(st.last()) {
            let all = kept.push(st.last());
            assert forall|i: int, j: int| 0 <= i < j < all.len() implies (#[trigger] all[i]).0 < (
            #[trigger] all[j]).0 by {
                if j == kept.len() {
                    assert(kept.contains(kept[i]));
                    lemma_filter_members(front, p, kept[i]);
                    let k = choose|k: int| 0 <= k < front.len() && front[k] == kept[i];
                    assert(st[k].0 < st[st.len() - 1].0);
                } else {
                    assert(kept[i].0 < kept[j].0);
                }
            }
        }
    }
}

proof fn lemma_batch_removable(s: Seq<EventView>, target: i64)
    requires
        revisions_ascend(s),
    ensures
        removable(
            s,
            |e: EventView| !garbage_batch(stamps(s), target).contains(e.revision),
            target,
        ),
{
    let st = stamps(s);
    let b = garbage_batch(st, target);
    let g = garbage(st, target);
    let keep = |e: EventView| !b.contains(e.revision);
    let p = |x: Stamp| superseded(st, x, target);
    lemma_batch_is_garbage(s, target);
    assert forall|i: int, j: int| 0 <= i < j < st.len() implies (#[trigger] st[i]).0 < (
    #[trigger] st[j]).0 by {
        assert(s[i].revision < s[j].revision);
    }
    lemma_garbage_ascends(st, p);
    assert forall|c: EventView| #[trigger] s.contains(c) && !keep(c) implies superseded(
        st,
        stamp(c),
        target,
    ) by {
        let i = choose|i: int| 0 <= i < s.len() && s[i] == c;
        assert(b.contains(s[i].revision));
    }
    assert forall|a: EventView, c: EventView|
        #![trigger s.contains(a), s.contains(c)]
        s.contains(a) && s.contains(c) && a.task_id == c.task_id && a.revision < c.revision
            && !keep(c) implies !keep(a) by {
        let i = choose|i: int| 0 <= i < s.len() && s[i] == a;
        let j = choose|j: int| 0 <= j < s.len() && s[j] == c;
        assert(b.contains(s[j].revision));
        assert(superseded(st, stamp(s[j]), target));
        assert(st[j] == stamp(s[j]));
        assert(superseded(st, stamp(s[i]), target));
        lemma_garbage_members(s, target, i);
        let x = choose|x: int| 0 <= x < g.len() && g[x] == a.revision;
        let y = choose|y: int| 0 <= y < b.len() && b[y] == c.revision;
        assert(g[y] == c.revision);
        let kept = st.filter(p);
        assert(g[x] == kept[x].0 && g[y] == kept[y].0);
        if y < x {
            assert(kept[y].0 < kept[x].0);
        }
        assert(b[x] == a.revision);
    }
}

proof fn lemma_fewer_superseded(s: Seq<EventView>, keep: spec_fn(EventView) -> bool, x: Stamp, target: i64)
    requires
        superseded(stamps(s.filter(keep)), x, target),
    ensures
        superseded(stamps(s), x, target),
{
    let t = s.filter(keep);
    let tt = stamps(t);
    let j = choose|j: int|
        0 <= j < tt.len() && (#[trigger] tt[j]).1 == x.1 && x.0 < tt[j].0 <= target;
    assert(tt[j] == stamp(t[j]));
    assert(t.contains(t[j]));
    lemma_filter_members(s, keep, t[j]);
    let k = choose|k: int| 0 <= k < s.len() && s[k] == t[j];
    assert(stamps(s)[k] == stamp(s[k]));
}

/// One step of garbage collection within the closed history keeps the log
/// consistent.
pub proof fn lemma_garbage_step_consistent(log: LogView, target: i64)
    requires
        log.consistent(),
        target <= log.state.scheduled_revision,
    ensures
        (LogView {
            events: without(log.events, garbage_batch(stamps(log.events), target)),
            state: log.state,
        }).consistent(),
{
    let s = log.events;
    let b = garbage_batch(stamps(s), target);
    let keep = |e: EventView| !b.contains(e.revision);
    let after = LogView { events: without(s, b), state: log.state };
    lemma_batch_removable(s, target);
    assert(cleaned_up(after.events, log.state.finished_revision)) by {
        let t = after.events;
        let f = log.state.finished_revision;
        assert forall|i: int| 0 <= i < t.len() implies !superseded(
            stamps(t),
            stamp(#[trigger] t[i]),
            f,
        ) by {
            assert(t.contains(t[i]));
            lemma_filter_members(s, keep, t[i]);
            let k = choose|k: int| 0 <= k < s.len() && s[k] == t[i];
            if superseded(stamps(t), stamp(t[i]), f) {
                lemma_fewer_superseded(s, keep, stamp(t[i]), f);
                assert(superseded(stamps(s), stamp(s[k]), f));
            }
        }
    }
    lemma_removal_consistent(log, keep, target, after);
}

/// Closing more of the history keeps the log consistent.
pub proof fn lemma_schedule_consistent(log: LogView, target: i64)
    requires
        log.consistent(),
        log.state.scheduled_revision <= target <= log.state.current_revision,
    ensures
        (LogView {
            events: log.events,
            state: RevisionState { scheduled_revision: target, ..log.state },
        }).consistent(),
{
    let after = LogView {
        events: log.events,
        state: RevisionState { scheduled_revision: target, ..log.state },
    };
    assert(chained(after.events, target)) by {
        assert forall|b: EventView| #[trigger] first_event(after.events, b) implies is_root(b) || (
        b.prev_revision is Some && b.prev_revision->0 <= target) by {
            assert(first_event(log.events, b));
        }
    }
}

/// Compaction through a revision keeps the log consistent.
pub proof fn lemma_compact_consistent(log: LogView, target: i64)
    requires
        log.consistent(),
        log.state.scheduled_revision <= target <= log.state.current_revision,
    ensures
        (LogView {
            events: compacted(log.events, target),
            state: RevisionState {
                current_revision: log.state.current_revision,
                scheduled_revision: target,
                finished_revision: target,
            },
        }).consistent(),
{
    let s = log.events;
    let st = stamps(s);
    let keep = |e: EventView| !superseded(st, stamp(e), target);
    let after = LogView {
        events: compacted(s, target),
        state: RevisionState {
            current_revision: log.state.current_revision,
            scheduled_revision: target,
            finished_revision: target,
        },
    };
    assert(removable(s, keep, target)) by {
        assert forall|a: EventView, c: EventView|
            #![trigger s.contains(a), s.contains(c)]
            s.contains(a) && s.contains(c) && a.task_id == c.task_id && a.revision < c.revision
                && !keep(c) implies !keep(a) by {
            let j = choose|j: int| 0 <= j < s.len() && s[j] == c;
            assert(st[j] == stamp(s[j]));
        }
    }
    assert(cleaned_up(after.events, target)) by {
        let t = after.events;
        assert forall|i: int| 0 <= i < t.len() implies !superseded(
            stamps(t),
            stamp(#[trigger] t[i]),
            target,
        ) by {
            assert(t.contains(t[i]));
            lemma_filter_members(s, keep, t[i]);
            if superseded(stamps(t), stamp(t[i]), target) {
                lemma_fewer_superseded(s, keep, stamp(t[i]), target);
            }
        }
    }
    lemma_removal_consistent(log, keep, target, after);
}

} // verus!
