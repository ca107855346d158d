//! The event log: how tasks are created and updated by appending events, how
//! they are read back, and how old events are compacted.

use std::collections::HashSet;
use vstd::prelude::*;
use vstd::string::*;
use crate::clock::utc_now;
use crate::compaction::{compacted, garbage_batch, lemma_batch_is_garbage, lemma_compacted_after};
use crate::compaction::{lemma_filter_keeps_order, lemma_garbage_in_log, lemma_nothing_superseded};
use crate::compaction::{stamp, stamps, stamps_ascend, superseded_batch, without, Stamp};
use crate::domain::{event_of, event_views, later_of, optional_task, task_views};
use crate::domain::{EventView, Task, TaskEvent, TaskEventType};
use crate::domain::{TaskFilter, TaskId, TaskList, TaskMetadata, TaskState, TaskView};
use crate::domain::{TaskWatchEvent, Timestamp, UpdateTaskRequest};
use crate::errors::{Fault, StoreError};
use crate::history::{lemma_compact_consistent, lemma_create_consistent};
use crate::history::{lemma_garbage_step_consistent, lemma_schedule_consistent};
use crate::history::lemma_update_consistent;
use crate::ids::{is_version_7, now_v7};
use crate::labels::{LabelMap, Labels};
use crate::listing::{is_listing, list_latest};
use crate::numbers::{decimal, signed_text};
use crate::replay::{read_events, replay, replayed};
use crate::rules::{change_allowed, change_refused, description_fault, labels_fault};
use crate::rules::{normalize_labels, normalized, validate_description, validate_state_change};
use crate::sequences::{lemma_filter_all, lemma_filter_members, lemma_filter_shortens};
use crate::sequences::lemma_filter_take;
use crate::text::{same_text, trim, trimmed};

verus! {

broadcast use {vstd::string::group_string_axioms, vstd::std_specs::hash::group_hash_axioms};

/// The most events that one step of garbage collection removes.
pub const COMPACTION_BATCH_SIZE: usize = 1000;

/// The highest revision, the revision through which history is closed, and the
/// one through which it has been cleaned up.
#[derive(Debug, Clone, Copy, PartialEq, Eq, Structural)]
pub struct RevisionState {
    pub current_revision: i64,
    pub scheduled_revision: i64,
    pub finished_revision: i64,
}

/// What a change to a task returns: the event that records it.
#[derive(Debug, PartialEq, Eq)]
pub struct MutationResult {
    pub event: TaskEvent,
}

/// What a list request returns.
#[derive(Debug, PartialEq, Eq)]
pub struct ListResult {
    pub revision: i64,
    pub tasks: Vec<Task>,
}

/// The events in order of revision, with the watermarks of compaction.
#[derive(Debug)]
pub struct EventLog {
    events: Vec<TaskEvent>,
    state: RevisionState,
}

/// What an event log is.
#[verifier::ext_equal]
pub struct LogView {
    pub events: Seq<EventView>,
    pub state: RevisionState,
}

impl View for EventLog {
    type V = LogView;

    closed spec fn view(&self) -> LogView {
        LogView { events: event_views(self.events@), state: self.state }
    }
}

// -------------------------------------------------------------------- shape

/// The revisions ascend.
pub open spec fn revisions_ascend(s: Seq<EventView>) -> bool {
    forall|i: int, j: int|
        0 <= i < j < s.len() ==> (#[trigger] s[i]).revision < (#[trigger] s[j]).revision
}

/// The `i`-th event is the last of its task.
pub open spec fn latest_at(s: Seq<EventView>, i: int) -> bool {
    &&& 0 <= i < s.len()
    &&& forall|j: int| i < j < s.len() ==> (#[trigger] s[j]).task_id != s[i].task_id
}

/// The log holds an event of the task.
pub open spec fn has_task(s: Seq<EventView>, id: TaskId) -> bool {
    exists|i: int| 0 <= i < s.len() && (#[trigger] s[i]).task_id == id
}

/// The last event of the task.
pub open spec fn latest(s: Seq<EventView>, id: TaskId) -> EventView {
    s[choose|i: int| latest_at(s, i) && s[i].task_id == id]
}

/// The watermarks are in order.
pub open spec fn state_valid(r: RevisionState) -> bool {
    0 <= r.finished_revision <= r.scheduled_revision <= r.current_revision
}

impl LogView {
    /// The watermarks are in order, and the revisions of the events ascend from
    /// one to the current revision.
    pub open spec fn valid(self) -> bool {
        &&& state_valid(self.state)
        &&& revisions_ascend(self.events)
        &&& forall|i: int|
            0 <= i < self.events.len() ==> 1 <= (#[trigger] self.events[i]).revision
                <= self.state.current_revision
    }

    /// The log with one more event.
    pub open spec fn append(self, e: EventView) -> LogView {
        LogView {
            events: self.events.push(e),
            state: RevisionState { current_revision: e.revision, ..self.state },
        }
    }
}

/// A task with an event has a last event, and only one.
pub proof fn lemma_latest(s: Seq<EventView>, id: TaskId, i: int)
    requires
        latest_at(s, i),
        s[i].task_id == id,
    ensures
        has_task(s, id),
        latest(s, id) == s[i],
{
    let k = choose|k: int| latest_at(s, k) && s[k].task_id == id;
    assert(latest_at(s, k) && s[k].task_id == id);
    if k < i {
        assert(s[i].task_id != s[k].task_id);
    } else if i < k {
        assert(s[k].task_id != s[i].task_id);
    }
}

/// A task with an event has a last event.
pub proof fn lemma_latest_exists(s: Seq<EventView>, i: int) -> (k: int)
    requires
        0 <= i < s.len(),
    ensures
        latest_at(s, k),
        s[k].task_id == s[i].task_id,
        i <= k,
    decreases s.len() - i,
{
    if latest_at(s, i) {
        i
    } else {
        let j = choose|j: int| i < j < s.len() && (#[trigger] s[j]).task_id == s[i].task_id;
        lemma_latest_exists(s, j)
    }
}

// ----------------------------------------------------------------- creation

/// What creating a task gives: the event that is appended, or why there is none.
pub open spec fn create_result(
    log: LogView,
    id: TaskId,
    description: Seq<char>,
    now: Timestamp,
) -> Result<EventView, Fault> {
    if description_fault(trimmed(description)) is Some {
        Err(Fault::Validation(description_fault(trimmed(description))->0))
    } else if log.state.current_revision == i64::MAX {
        Err(Fault::Database("database or disk is full"@))
    } else {
        Ok(
            event_of(
                (log.state.current_revision + 1) as i64,
                TaskEventType::Created,
                TaskView {
                    id,
                    revision: 0,
                    created_at: now,
                    updated_at: now,
                    description: trimmed(description),
                    list: TaskList::Inbox,
                    state: TaskState::Pending,
                    labels: LabelMap::empty(),
                },
                None,
                None,
            ),
        )
    }
}

// ------------------------------------------------------------------ updates

/// The task that an update asks for.
pub open spec fn updated_task(before: EventView, request: UpdateTaskRequest, now: Timestamp) -> TaskView {
    TaskView {
        id: before.task_id,
        revision: before.revision,
        created_at: before.created_at,
        updated_at: later_of(now, before.updated_at),
        description: trimmed(request.description@),
        list: request.list,
        state: request.state,
        labels: normalized(request.labels@),
    }
}

/// Whether an update would leave everything as it is.
pub open spec fn changes_nothing(before: EventView, request: UpdateTaskRequest) -> bool {
    &&& trimmed(request.description@) == before.description
    &&& request.list == before.list_name
    &&& request.state == before.state
    &&& normalized(request.labels@) == before.labels
}

/// What updating a task gives: the event that is appended, or why there is none.
/// The expected revision is compared first; then the change of list and state, the
/// description and the labels are examined.
pub open spec fn update_result(
    log: LogView,
    id: TaskId,
    request: UpdateTaskRequest,
    now: Timestamp,
) -> Result<EventView, Fault> {
    let before = latest(log.events, id);
    let description = trimmed(request.description@);
    if !has_task(log.events, id) {
        Err(Fault::NotFound(id))
    } else if request.metadata.revision != before.revision {
        Err(
            Fault::RevisionConflict {
                task_id: id,
                expected_revision: request.metadata.revision,
                current_revision: before.revision,
            },
        )
    } else if !change_allowed(before.list_name, before.state, request.list, request.state) {
        Err(
            Fault::Conflict(
                change_refused(id, before.list_name, before.state, request.list, request.state),
            ),
        )
    } else if description_fault(description) is Some {
        Err(Fault::Validation(description_fault(description)->0))
    } else if labels_fault(request.labels@) is Some {
        Err(Fault::Validation(labels_fault(request.labels@)->0))
    } else if changes_nothing(before, request) {
        Err(Fault::Validation("task update must change at least one field"@))
    } else if log.state.current_revision == i64::MAX {
        Err(Fault::Database("database or disk is full"@))
    } else {
        Ok(
            event_of(
                (log.state.current_revision + 1) as i64,
                TaskEventType::Updated,
                updated_task(before, request, now),
                Some(before.revision),
                Some(before.task()),
            ),
        )
    }
}

/// The view of what a change to a task returns.
pub open spec fn mutation(r: Result<MutationResult, StoreError>) -> Result<EventView, Fault> {
    match r {
        Ok(m) => Ok(m.event@),
        Err(e) => Err(e@),
    }
}

/// The log after a change: with its event if there is one, else as it was.
pub open spec fn log_after(log: LogView, result: Result<EventView, Fault>) -> LogView {
    match result {
        Ok(e) => log.append(e),
        Err(_) => log,
    }
}

/// The event that records a change to `after`, from `before` if there was one.
pub fn new_event(
    revision: i64,
    event_type: TaskEventType,
    after: Task,
    prev_revision: Option<i64>,
    before: Option<Task>,
) -> (r: TaskEvent)
    ensures
        r@ == event_of(revision, event_type, after@, prev_revision, optional_task(before)),
{
    let mut event = TaskEvent {
        revision,
        task_id: after.metadata.id,
        prev_revision,
        event_type,
        description: after.description,
        list_name: after.list,
        state: after.state,
        labels: after.labels,
        created_at: after.metadata.created_at,
        updated_at: after.metadata.updated_at,
        prev_description: None,
        prev_list_name: None,
        prev_state: None,
        prev_labels: None,
        prev_updated_at: None,
    };
    if let Some(task) = before {
        event.prev_description = Some(task.description);
        event.prev_list_name = Some(task.list);
        event.prev_state = Some(task.state);
        event.prev_labels = Some(task.labels);
        event.prev_updated_at = Some(task.metadata.updated_at);
    }
    event
}

impl EventLog {
    /// An empty log.
    pub fn new() -> (r: EventLog)
        ensures
            r@.valid(),
            r@.consistent(),
            r@.events == Seq::<EventView>::empty(),
            r@.state == (RevisionState {
                current_revision: 0,
                scheduled_revision: 0,
                finished_revision: 0,
            }),
    {
        let r = EventLog {
            events: Vec::new(),
            state: RevisionState {
                current_revision: 0,
                scheduled_revision: 0,
                finished_revision: 0,
            },
        };
        assert(r@.events =~= Seq::<EventView>::empty());
        r
    }

    /// The log of the given events and watermarks, if they can be those of a log.
    pub fn from_rows(events: Vec<TaskEvent>, state: RevisionState) -> (r: Option<EventLog>)
        ensures
            r is Some <==> (LogView { events: event_views(events@), state }).valid(),
            r is Some ==> r->0@ == (LogView { events: event_views(events@), state }),
    {
        let ghost log = LogView { events: event_views(events@), state };
        if state.finished_revision < 0 || state.scheduled_revision < state.finished_revision
            || state.current_revision < state.scheduled_revision {
            return None;
        }
        let mut last: i64 = 0;
        let mut i: usize = 0;
        while i < events.len()
            invariant
                i <= events.len(),
                log == (LogView { events: event_views(events@), state }),
                state_valid(state),
                0 <= last,
                forall|a: int, b: int|
                    0 <= a < b < i ==> (#[trigger] log.events[a]).revision < (
                    #[trigger] log.events[b]).revision,
                forall|a: int|
                    0 <= a < i ==> 1 <= (#[trigger] log.events[a]).revision <= last
                        && log.events[a].revision <= state.current_revision,
                i == 0 ==> last == 0,
                i > 0 ==> last == log.events[i - 1].revision,
            decreases events.len() - i,
        {
            let revision = events[i].revision;
            assert(log.events[i as int].revision == revision);
            if revision <= last || revision > state.current_revision {
                assert(!log.valid()) by {
                    if log.valid() && i > 0 {
                        assert(log.events[i - 1].revision < log.events[i as int].revision);
                    }
                }
                return None;
            }
            last = revision;
            i = i + 1;
        }
        Some(EventLog { events, state })
    }

    /// The events of the log.
    pub fn events(&self) -> (r: &Vec<TaskEvent>)
        ensures
            event_views(r@) == self@.events,
    {
        &self.events
    }

    /// The current revision and the watermarks of compaction.
    pub fn revision_state(&self) -> (r: RevisionState)
        ensures
            r == self@.state,
    {
        self.state
    }

    fn find_latest(&self, id: TaskId) -> (r: Option<usize>)
        ensures
            r is Some <==> has_task(self@.events, id),
            r is Some ==> latest_at(self@.events, r->0 as int) && self@.events[r->0 as int].task_id
                == id && latest(self@.events, id) == self@.events[r->0 as int] && r->0
                < self.events.len(),
    {
        let ghost s = self@.events;
        let mut i: usize = self.events.len();
        while 0 < i
            invariant
                i <= self.events.len(),
                s == self@.events,
                s.len() == self.events.len(),
                forall|j: int| i <= j < s.len() ==> (#[trigger] s[j]).task_id != id,
            decreases i,
        {
            i = i - 1;
            assert(s[i as int] == self.events@[i as int]@);
            if self.events[i].task_id == id {
                proof {
                    lemma_latest(s, id, i as int);
                }
                return Some(i);
            }
        }
        None
    }

    /// Whether the log knows the task.
    pub fn contains_task(&self, id: TaskId) -> (r: bool)
        ensures
            r == has_task(self@.events, id),
    {
        self.find_latest(id).is_some()
    }

    /// The task as its last event left it.
    pub fn get(&self, id: TaskId) -> (r: Result<Task, StoreError>)
        ensures
            r is Ok <==> has_task(self@.events, id),
            r is Ok ==> r->Ok_0@ == latest(self@.events, id).task(),
            r is Err ==> r->Err_0@ == Fault::NotFound(id),
    {
        match self.find_latest(id) {
            Some(i) => {
                assert(self@.events[i as int] == self.events@[i as int]@);
                Ok(self.events[i].task())
            },
            None => Err(StoreError::NotFound(id)),
        }
    }

    /// Takes a candidate for the identifier of a new task, unless a task has it.
    pub fn accept_candidate(&self, candidate: TaskId) -> (r: Option<TaskId>)
        ensures
            has_task(self@.events, candidate) ==> r is None,
            !has_task(self@.events, candidate) ==> r == Some(candidate),
    {
        if self.contains_task(candidate) {
            None
        } else {
            Some(candidate)
        }
    }

    /// Draws a new identifier of version 7; `None` if a task has it already, in
    /// which case the caller draws again. As long as no task has an identifier of
    /// version 7, the first draw is taken.
    pub fn fresh_id(&self) -> (r: Option<TaskId>)
        ensures
            r is Some ==> is_version_7(r->0) && !has_task(self@.events, r->0),
            r is None ==> exists|id: TaskId| is_version_7(id) && #[trigger] has_task(
                self@.events,
                id,
            ),
    {
        self.accept_candidate(now_v7())
    }

    fn append(&mut self, event: TaskEvent)
        requires
            old(self)@.valid(),
            event@.revision == old(self)@.state.current_revision + 1,
        ensures
            final(self)@ == old(self)@.append(event@),
            final(self)@.valid(),
    {
        self.state = RevisionState {
            current_revision: event.revision,
            scheduled_revision: self.state.scheduled_revision,
            finished_revision: self.state.finished_revision,
        };
        self.events.push(event);
        assert(self@.events =~= old(self)@.events.push(event@));
        assert(self@.valid()) by {
            let s = self@.events;
            assert forall|i: int, j: int| 0 <= i < j < s.len() implies (#[trigger] s[i]).revision
                < (#[trigger] s[j]).revision by {
                assert(s[i] == old(self)@.events[i]);
                if j < old(self)@.events.len() {
                    assert(s[j] == old(self)@.events[j]);
                }
            }
            assert forall|i: int| 0 <= i < s.len() implies 1 <= (#[trigger] s[i]).revision
                <= self@.state.current_revision by {
                if i < old(self)@.events.len() {
                    assert(s[i] == old(self)@.events[i]);
                }
            }
        }
    }

    /// Appends the event that creates a task with this identifier at this time.
    pub fn create_at(&mut self, id: TaskId, description: &str, now: Timestamp) -> (r: Result<
        MutationResult,
        StoreError,
    >)
        requires
            old(self)@.valid(),
            !has_task(old(self)@.events, id),
        ensures
            mutation(r) == create_result(old(self)@, id, description@, now),
            final(self)@ == log_after(old(self)@, create_result(old(self)@, id, description@, now)),
            r is Ok <==> 1 <= trimmed(description@).len() <= 10_000
                && old(self)@.state.current_revision < i64::MAX,
            r matches Ok(m) ==> m.event@.description == trimmed(description@) && m.event@.task_id
                == id && final(self)@.events == old(self)@.events.push(m.event@),
            r is Err ==> final(self)@ == old(self)@,
            final(self)@.valid(),
            old(self)@.consistent() && is_version_7(id) ==> final(self)@.consistent(),
    {
        let ghost old_description = description@;
        let description = trim(description);
        match validate_description(description) {
            Err(e) => {
                return Err(e);
            },
            Ok(_) => {},
        }
        if self.state.current_revision == i64::MAX {
            return Err(StoreError::Database("database or disk is full".to_owned()));
        }
        let task = Task {
            metadata: TaskMetadata { id, revision: 0, created_at: now, updated_at: now },
            description: description.to_owned(),
            list: TaskList::Inbox,
            state: TaskState::Pending,
            labels: Labels::new(),
        };
        let event = new_event(
            self.state.current_revision + 1,
            TaskEventType::Created,
            task,
            None,
            None,
        );
        let result = event.clone();
        self.append(event);
        proof {
            if old(self)@.consistent() && is_version_7(id) {
                lemma_create_consistent(old(self)@, id, old_description, now);
            }
        }
        Ok(MutationResult { event: result })
    }

    /// Appends the event that creates a task now.
    pub fn create(&mut self, id: TaskId, description: &str) -> (r: Result<
        MutationResult,
        StoreError,
    >)
        requires
            old(self)@.valid(),
            !has_task(old(self)@.events, id),
        ensures
            exists|now: Timestamp|
                now.seconds >= 0 && now.nanos < 1_000_000_000 && mutation(r)
                    == #[trigger] create_result(old(self)@, id, description@, now)
                    && final(self)@ == log_after(
                    old(self)@,
                    create_result(old(self)@, id, description@, now),
                ),
            r is Ok <==> 1 <= trimmed(description@).len() <= 10_000
                && old(self)@.state.current_revision < i64::MAX,
            r matches Ok(m) ==> m.event@.description == trimmed(description@) && m.event@.task_id
                == id && final(self)@.events == old(self)@.events.push(m.event@),
            r is Err ==> final(self)@ == old(self)@,
            final(self)@.valid(),
            old(self)@.consistent() && is_version_7(id) ==> final(self)@.consistent(),
    {
        let now = utc_now();
        self.create_at(id, description, now)
    }

    /// Appends the event that gives a task the requested state at this time, if
    /// the request names the task's last revision and the change is allowed.
    pub fn update_at(&mut self, id: TaskId, request: &UpdateTaskRequest, now: Timestamp) -> (r:
        Result<MutationResult, StoreError>)
        requires
            old(self)@.valid(),
        ensures
            mutation(r) == update_result(old(self)@, id, *request, now),
            final(self)@ == log_after(old(self)@, update_result(old(self)@, id, *request, now)),
            r matches Ok(m) ==> m.event@.description == trimmed(request.description@)
                && m.event@.list_name == request.list && m.event@.state == request.state
                && m.event@.labels == normalized(request.labels@) && m.event@.task_id == id
                && final(self)@.events == old(self)@.events.push(m.event@),
            r is Err ==> final(self)@ == old(self)@,
            final(self)@.valid(),
            old(self)@.consistent() ==> final(self)@.consistent(),
    {
        let at = match self.find_latest(id) {
            Some(i) => i,
            None => {
                return Err(StoreError::NotFound(id));
            },
        };
        let ghost last = latest(self@.events, id);
        assert(last == self.events@[at as int]@);
        if request.metadata.revision != self.events[at].revision {
            return Err(
                StoreError::RevisionConflict {
                    task_id: id,
                    expected_revision: request.metadata.revision,
                    current_revision: self.events[at].revision,
                },
            );
        }
        let before = self.events[at].task();
        assert(before@ == last.task());
        let description = trim(request.description.as_str());
        match validate_state_change(id, before.list, before.state, request.list, request.state) {
            Err(e) => {
                return Err(e);
            },
            Ok(_) => {},
        }
        match validate_description(description) {
            Err(e) => {
                return Err(e);
            },
            Ok(_) => {},
        }
        let labels = match normalize_labels(&request.labels) {
            Err(e) => {
                return Err(e);
            },
            Ok(l) => l,
        };
        if same_text(description, before.description.as_str()) && request.list == before.list
            && request.state == before.state && labels.same(&before.labels) {
            return Err(
                StoreError::Validation("task update must change at least one field".to_owned()),
            );
        }
        if self.state.current_revision == i64::MAX {
            return Err(StoreError::Database("database or disk is full".to_owned()));
        }
        let after = Task {
            metadata: TaskMetadata {
                id,
                revision: before.metadata.revision,
                created_at: before.metadata.created_at,
                updated_at: now.max(before.metadata.updated_at),
            },
            description: description.to_owned(),
            list: request.list,
            state: request.state,
            labels,
        };
        assert(after@ == updated_task(last, *request, now));
        let event = new_event(
            self.state.current_revision + 1,
            TaskEventType::Updated,
            after,
            Some(before.metadata.revision),
            Some(before),
        );
        let result = event.clone();
        self.append(event);
        proof {
            if old(self)@.consistent() {
                lemma_update_consistent(old(self)@, id, *request, now);
            }
        }
        Ok(MutationResult { event: result })
    }

    /// Appends the event that gives a task the requested state now.
    pub fn update(&mut self, id: TaskId, request: &UpdateTaskRequest) -> (r: Result<
        MutationResult,
        StoreError,
    >)
        requires
            old(self)@.valid(),
        ensures
            exists|now: Timestamp|
                now.seconds >= 0 && now.nanos < 1_000_000_000 && mutation(r)
                    == #[trigger] update_result(old(self)@, id, *request, now)
                    && final(self)@ == log_after(
                    old(self)@,
                    update_result(old(self)@, id, *request, now),
                ),
            r matches Ok(m) ==> m.event@.description == trimmed(request.description@)
                && m.event@.list_name == request.list && m.event@.state == request.state
                && m.event@.labels == normalized(request.labels@) && m.event@.task_id == id
                && final(self)@.events == old(self)@.events.push(m.event@),
            r is Err ==> final(self)@ == old(self)@,
            final(self)@.valid(),
            old(self)@.consistent() ==> final(self)@.consistent(),
    {
        let now = utc_now();
        self.update_at(id, request, now)
    }
}

// --------------------------------------------------------------- compaction

/// Why history cannot be compacted through `target`.
pub open spec fn compact_fault(state: RevisionState, target: i64) -> Option<Fault> {
    if target < state.scheduled_revision {
        Some(
            Fault::Conflict(
                "compact revision cannot move backward from "@ + decimal(
                    state.scheduled_revision as int,
                ) + " to "@ + decimal(target as int),
            ),
        )
    } else if target > state.current_revision {
        Some(
            Fault::FutureRevision {
                requested: target,
                current_revision: state.current_revision,
            },
        )
    } else {
        None
    }
}

/// The watermarks once garbage collection through `target` is over: unless it
/// has gone further before, or was not asked for.
pub open spec fn finished_state(state: RevisionState, target: i64) -> RevisionState {
    if state.finished_revision <= target && state.scheduled_revision >= target {
        RevisionState { finished_revision: target, ..state }
    } else {
        state
    }
}

/// The revision through which garbage collection is still to be done, if it was
/// closed but not cleaned up.
pub fn pending_compaction(state: RevisionState) -> (r: Option<i64>)
    ensures
        r is Some <==> state.finished_revision < state.scheduled_revision,
        r is Some ==> r->0 == state.scheduled_revision,
{
    if state.finished_revision < state.scheduled_revision {
        Some(state.scheduled_revision)
    } else {
        None
    }
}

impl EventLog {
    /// The tasks that the filter wants, as their last events left them, with the
    /// revision at which they were read.
    pub fn list(&self, filter: &TaskFilter) -> (r: ListResult)
        ensures
            r.revision == self@.state.current_revision,
            is_listing(self@.events, filter@, task_views(r.tasks@)),
    {
        ListResult {
            revision: self.state.current_revision,
            tasks: list_latest(&self.events, filter),
        }
    }

    /// The events from a revision onwards, at most `limit` of them and never more
    /// than a thousand.
    pub fn events_from(&self, start_revision: i64, limit: i64) -> (r: Result<
        Vec<TaskWatchEvent>,
        StoreError,
    >)
        requires
            self@.valid(),
            self@.state.current_revision < i64::MAX || start_revision
                <= self@.state.scheduled_revision,
        ensures
            replayed(r) == replay(self@.events, self@.state, start_revision, limit),
    {
        read_events(&self.events, self.state, start_revision, limit)
    }

    /// Closes history through `target`, if it is not closed further and the log
    /// has come so far.
    pub fn schedule_compaction(&mut self, target_revision: i64) -> (r: Result<(), StoreError>)
        requires
            old(self)@.valid(),
        ensures
            r is Ok <==> compact_fault(old(self)@.state, target_revision) is None,
            r is Err ==> r->Err_0@ == compact_fault(old(self)@.state, target_revision)->0
                && final(self)@ == old(self)@,
            r is Ok ==> final(self)@ == (LogView {
                events: old(self)@.events,
                state: RevisionState {
                    scheduled_revision: target_revision,
                    ..old(self)@.state
                },
            }),
            final(self)@.valid(),
            old(self)@.consistent() ==> final(self)@.consistent(),
    {
        if target_revision < self.state.scheduled_revision {
            let mut out: String = "compact revision cannot move backward from ".to_owned();
            out.append(signed_text(self.state.scheduled_revision).as_str());
            out.append(" to ");
            out.append(signed_text(target_revision).as_str());
            return Err(StoreError::Conflict(out));
        }
        if target_revision > self.state.current_revision {
            return Err(
                StoreError::FutureRevision {
                    requested: target_revision,
                    current_revision: self.state.current_revision,
                },
            );
        }
        self.state = RevisionState {
            current_revision: self.state.current_revision,
            scheduled_revision: target_revision,
            finished_revision: self.state.finished_revision,
        };
        proof {
            if old(self)@.consistent() {
                lemma_schedule_consistent(old(self)@, target_revision);
            }
        }
        Ok(())
    }

    fn remove_revisions(&mut self, revisions: &Vec<i64>)
        ensures
            final(self)@ == (LogView {
                events: without(old(self)@.events, revisions@),
                state: old(self)@.state,
            }),
    {
        let ghost s = self@.events;
        let ghost q = |e: EventView| !revisions@.contains(e.revision);
        let mut doomed: HashSet<i64> = HashSet::new();
        let mut i: usize = 0;
        while i < revisions.len()
            invariant
                i <= revisions.len(),
                forall|x: i64| #[trigger]
                    doomed@.contains(x) <==> revisions@.take(i as int).contains(x),
            decreases revisions.len() - i,
        {
            let ghost before = revisions@.take(i as int);
            doomed.insert(revisions[i]);
            assert(revisions@.take(i + 1) =~= before.push(revisions@[i as int]));
            assert forall|x: i64| #[trigger] doomed@.contains(x) <==> revisions@.take(
                i + 1,
            ).contains(x) by {
                let after = revisions@.take(i + 1);
                if before.contains(x) {
                    let k = choose|k: int| 0 <= k < before.len() && before[k] == x;
                    assert(after[k] == x);
                }
                if after.contains(x) {
                    let k = choose|k: int| 0 <= k < after.len() && after[k] == x;
                    if k < i {
                        assert(before[k] == x);
                    }
                }
                assert(after[i as int] == revisions@[i as int]);
            }
            i = i + 1;
        }
        assert(revisions@.take(i as int) =~= revisions@);
        let mut all: Vec<TaskEvent> = Vec::new();
        std::mem::swap(&mut all, &mut self.events);
        assert(event_views(all@) == s);
        let mut kept: Vec<TaskEvent> = Vec::new();
        assert(event_views(kept@) =~= s.take(0).filter(q)) by {
            lemma_filter_all(s.take(0), q);
        }
        for event in it: all
            invariant
                event_views(it.seq()) == s,
                q == (|e: EventView| !revisions@.contains(e.revision)),
                event_views(kept@) == s.take(it.index()).filter(q),
                forall|x: i64| #[trigger] doomed@.contains(x) <==> revisions@.contains(x),
        {
            let ghost n = it.index();
            let ghost before = kept@;
            assert(s[n] == event@);
            proof {
                lemma_filter_take(s, q, n);
            }
            if !doomed.contains(&event.revision) {
                kept.push(event);
                assert(event_views(kept@) =~= event_views(before).push(event@));
            }
        }
        assert(s.take(s.len() as int) =~= s);
        self.events = kept;
    }

    /// Removes the superseded events with the lowest revisions, and returns their
    /// revisions.
    pub fn collect_garbage(&mut self, target_revision: i64) -> (r: Vec<i64>)
        requires
            old(self)@.valid(),
        ensures
            r@ == garbage_batch(stamps(old(self)@.events), target_revision),
            final(self)@ == (LogView {
                events: without(old(self)@.events, r@),
                state: old(self)@.state,
            }),
            final(self)@.valid(),
            old(self)@.consistent() && target_revision <= old(self)@.state.scheduled_revision
                ==> final(self)@.consistent(),
    {
        let ghost s = self@.events;
        let mut rows: Vec<Stamp> = Vec::new();
        let mut i: usize = 0;
        assert(rows@ =~= stamps(s).take(0));
        while i < self.events.len()
            invariant
                i <= self.events.len(),
                s == event_views(self.events@),
                rows@ == stamps(s).take(i as int),
            decreases self.events.len() - i,
        {
            let ghost before = rows@;
            assert(s[i as int] == self.events@[i as int]@);
            rows.push((self.events[i].revision, self.events[i].task_id));
            assert(stamps(s).take(i + 1) =~= before.push(stamp(s[i as int])));
            i = i + 1;
        }
        assert(rows@ =~= stamps(s));
        assert(stamps_ascend(rows@)) by {
            assert forall|a: int, b: int| 0 <= a < b < rows@.len() implies (
            #[trigger] rows@[a]).0 < (#[trigger] rows@[b]).0 by {
                assert(s[a].revision < s[b].revision);
            }
        }
        let doomed = superseded_batch(&rows, target_revision);
        self.remove_revisions(&doomed);
        proof {
            lemma_without_valid(*old(self), doomed@);
            if old(self)@.consistent() && target_revision <= old(self)@.state.scheduled_revision {
                lemma_garbage_step_consistent(old(self)@, target_revision);
            }
        }
        doomed
    }

    /// Records that garbage collection through `target` is over.
    pub fn finish_compaction(&mut self, target_revision: i64)
        requires
            old(self)@.valid(),
        ensures
            final(self)@ == (LogView {
                events: old(self)@.events,
                state: finished_state(old(self)@.state, target_revision),
            }),
            final(self)@.valid(),
    {
        if self.state.finished_revision <= target_revision && self.state.scheduled_revision
            >= target_revision {
            self.state = RevisionState {
                current_revision: self.state.current_revision,
                scheduled_revision: self.state.scheduled_revision,
                finished_revision: target_revision,
            };
        }
    }

    fn compact_to(&mut self, target_revision: i64)
        requires
            old(self)@.valid(),
        ensures
            final(self)@ == (LogView {
                events: compacted(old(self)@.events, target_revision),
                state: finished_state(old(self)@.state, target_revision),
            }),
            final(self)@.valid(),
    {
        let ghost goal = compacted(self@.events, target_revision);
        let ghost state = self@.state;
        let mut more: bool = true;
        while more
            invariant
                self@.valid(),
                self@.state == state,
                goal == compacted(self@.events, target_revision),
                !more ==> garbage_batch(stamps(self@.events), target_revision).len() == 0,
            decreases self@.events.len() + if more { 1nat } else { 0nat },
        {
            let ghost s = self@.events;
            let doomed = self.collect_garbage(target_revision);
            proof {
                lemma_batch_is_garbage(s, target_revision);
                lemma_compacted_after(s, doomed@, target_revision);
                let q = |e: EventView| !doomed@.contains(e.revision);
                if doomed@.len() > 0 {
                    let i = lemma_garbage_in_log(s, target_revision, 0);
                    assert(doomed@[0] == s[i].revision);
                    assert(!q(s[i]));
                    lemma_filter_shortens(s, q, i);
                } else {
                    assert forall|i: int| 0 <= i < s.len() implies q(#[trigger] s[i]) by {}
                    lemma_filter_all(s, q);
                }
            }
            more = doomed.len() > 0;
        }
        proof {
            lemma_nothing_superseded(self@.events, target_revision);
        }
        self.finish_compaction(target_revision);
    }

    /// Closes history through `target` and removes what it makes superfluous.
    pub fn compact(&mut self, target_revision: i64) -> (r: Result<RevisionState, StoreError>)
        requires
            old(self)@.valid(),
        ensures
            r is Ok <==> compact_fault(old(self)@.state, target_revision) is None,
            r is Err ==> r->Err_0@ == compact_fault(old(self)@.state, target_revision)->0
                && final(self)@ == old(self)@,
            r is Ok ==> r->Ok_0 == final(self)@.state && final(self)@ == (LogView {
                events: compacted(old(self)@.events, target_revision),
                state: RevisionState {
                    current_revision: old(self)@.state.current_revision,
                    scheduled_revision: target_revision,
                    finished_revision: target_revision,
                },
            }),
            final(self)@.valid(),
            old(self)@.consistent() ==> final(self)@.consistent(),
    {
        match self.schedule_compaction(target_revision) {
            Err(e) => {
                return Err(e);
            },
            Ok(_) => {},
        }
        self.compact_to(target_revision);
        proof {
            if old(self)@.consistent() {
                lemma_compact_consistent(old(self)@, target_revision);
            }
        }
        Ok(self.state)
    }

    /// Takes up a compaction that was closed but not cleaned up.
    pub fn resume_pending_compaction(&mut self)
        requires
            old(self)@.valid(),
        ensures
            old(self)@.state.finished_revision == old(self)@.state.scheduled_revision
                ==> final(self)@ == old(self)@,
            old(self)@.state.finished_revision < old(self)@.state.scheduled_revision
                ==> final(self)@ == (LogView {
                events: compacted(old(self)@.events, old(self)@.state.scheduled_revision),
                state: RevisionState {
                    finished_revision: old(self)@.state.scheduled_revision,
                    ..old(self)@.state
                },
            }),
            final(self)@.valid(),
            old(self)@.consistent() ==> final(self)@.consistent(),
    {
        if let Some(target_revision) = pending_compaction(self.state) {
            self.compact_to(target_revision);
            proof {
                if old(self)@.consistent() {
                    lemma_compact_consistent(old(self)@, target_revision);
                }
            }
        }
    }
}

/// Removing events leaves a valid log.
pub proof fn lemma_without_valid(log: EventLog, revisions: Seq<i64>)
    requires
        log@.valid(),
    ensures
        (LogView { events: without(log@.events, revisions), state: log@.state }).valid(),
{
    let s = log@.events;
    let q = |e: EventView| !revisions.contains(e.revision);
    let t = without(s, revisions);
    lemma_filter_keeps_order(s, q);
    assert forall|i: int| 0 <= i < t.len() implies 1 <= (#[trigger] t[i]).revision
        <= log@.state.current_revision by {
        assert(t.contains(t[i]));
        lemma_filter_members(s, q, t[i]);
        let k = choose|k: int| 0 <= k < s.len() && s[k] == t[i];
        assert(1 <= s[k].revision);
    }
}

} // verus!
