//! Reading the log from a revision onwards.

use vstd::prelude::*;
use vstd::string::*;
use crate::domain::{event_views, watch_views, EventView, TaskEvent, TaskWatchEvent, WatchView};
use crate::errors::{Fault, StoreError};
use crate::numbers::{decimal, signed_text};
use crate::repository::{revisions_ascend, RevisionState};
use crate::sequences::lemma_filter_suffix;

verus! {

broadcast use vstd::string::group_string_axioms;

/// Why the log cannot be read from `start`: its history is closed through some
/// later revision, or it has not come that far.
pub open spec fn start_fault(start: i64, state: RevisionState) -> Option<Fault> {
    if start <= state.scheduled_revision {
        Some(
            Fault::Compacted { requested: start, compacted_revision: state.scheduled_revision },
        )
    } else if start > state.current_revision + 1 {
        Some(
            Fault::FutureRevision { requested: start, current_revision: state.current_revision },
        )
    } else {
        None
    }
}

/// Accepts a revision from which the log can be read.
pub fn validate_start_revision(start_revision: i64, state: RevisionState) -> (r: Result<
    (),
    StoreError,
>)
    requires
        state.current_revision < i64::MAX || start_revision <= state.scheduled_revision,
    ensures
        r is Ok <==> start_fault(start_revision, state) is None,
        r is Err ==> r->Err_0@ == start_fault(start_revision, state)->0,
{
    if start_revision <= state.scheduled_revision {
        return Err(
            StoreError::Compacted {
                requested: start_revision,
                compacted_revision: state.scheduled_revision,
            },
        );
    }
    if start_revision > state.current_revision + 1 {
        return Err(
            StoreError::FutureRevision {
                requested: start_revision,
                current_revision: state.current_revision,
            },
        );
    }
    Ok(())
}

/// The number of events that one reading returns at most.
pub open spec fn batch_limit(limit: i64) -> int {
    if limit < 1 {
        1
    } else if limit > 1000 {
        1000
    } else {
        limit as int
    }
}

/// How many events one reading returns at most.
pub fn clamp_limit(limit: i64) -> (r: i64)
    ensures
        r == batch_limit(limit),
{
    if limit < 1 {
        1
    } else if limit > 1000 {
        1000
    } else {
        limit
    }
}

/// The events from a revision onwards.
pub open spec fn from_revision(s: Seq<EventView>, start: i64) -> Seq<EventView> {
    s.filter(|e: EventView| e.revision >= start)
}

/// The first of the events from a revision onwards.
pub open spec fn batch(s: Seq<EventView>, start: i64, limit: i64) -> Seq<EventView> {
    let rest = from_revision(s, start);
    if rest.len() <= batch_limit(limit) {
        rest
    } else {
        rest.take(batch_limit(limit))
    }
}

/// The event as watchers see it.
pub open spec fn watch_of(e: EventView) -> WatchView {
    WatchView { event_type: e.event_type, task: e.task(), prev_task: e.prev_task() }
}

/// The events as watchers see them.
pub open spec fn watch_all(s: Seq<EventView>) -> Seq<WatchView> {
    s.map_values(|e: EventView| watch_of(e))
}

/// The event names an earlier revision but does not record all of the task
/// before it.
pub open spec fn incomplete(e: EventView) -> bool {
    e.prev_revision is Some && e.prev_task() is None
}

/// The `i`-th event is the first that is incomplete.
pub open spec fn first_incomplete(s: Seq<EventView>, i: int) -> bool {
    &&& 0 <= i < s.len()
    &&& incomplete(s[i])
    &&& forall|j: int| 0 <= j < i ==> !incomplete(#[trigger] s[j])
}

/// What is said of an incomplete event.
pub open spec fn incomplete_message(e: EventView) -> Seq<char> {
    "task event "@ + decimal(e.revision as int) + " has an incomplete previous state"@
}

/// What reading the log from a revision gives.
pub open spec fn replay(
    s: Seq<EventView>,
    state: RevisionState,
    start: i64,
    limit: i64,
) -> Result<Seq<WatchView>, Fault> {
    let b = batch(s, start, limit);
    if start_fault(start, state) is Some {
        Err(start_fault(start, state)->0)
    } else if exists|i: int| first_incomplete(b, i) {
        Err(Fault::Database(incomplete_message(b[choose|i: int| first_incomplete(b, i)])))
    } else {
        Ok(watch_all(b))
    }
}

/// The view of what reading the log returns.
pub open spec fn replayed(r: Result<Vec<TaskWatchEvent>, StoreError>) -> Result<
    Seq<WatchView>,
    Fault,
> {
    match r {
        Ok(v) => Ok(watch_views(v@)),
        Err(e) => Err(e@),
    }
}

/// Reads the log from a revision, at most `limit` events and never more than a
/// thousand.
pub fn read_events(
    events: &Vec<TaskEvent>,
    state: RevisionState,
    start_revision: i64,
    limit: i64,
) -> (r: Result<Vec<TaskWatchEvent>, StoreError>)
    requires
        revisions_ascend(event_views(events@)),
        state.current_revision < i64::MAX || start_revision <= state.scheduled_revision,
    ensures
        replayed(r) == replay(event_views(events@), state, start_revision, limit),
{
    match validate_start_revision(start_revision, state) {
        Err(e) => {
            return Err(e);
        },
        Ok(_) => {},
    }
    let ghost s = event_views(events@);
    let mut first: usize = 0;
    while first < events.len() && events[first].revision < start_revision
        invariant
            first <= events.len(),
            s == event_views(events@),
            forall|i: int| 0 <= i < first ==> (#[trigger] s[i]).revision < start_revision,
        decreases events.len() - first,
    {
        assert(s[first as int] == events@[first as int]@);
        first = first + 1;
    }
    proof {
        let p = |e: EventView| e.revision >= start_revision;
        assert forall|i: int| first <= i < s.len() implies p(#[trigger] s[i]) by {
            assert(s[first as int] == events@[first as int]@);
            if first < i {
                assert(s[first as int].revision < s[i].revision);
            }
        }
        lemma_filter_suffix(s, p, first as int);
        assert(from_revision(s, start_revision) == s.skip(first as int));
    }
    let most: usize = clamp_limit(limit) as usize;
    let ghost b = batch(s, start_revision, limit);
    let mut out: Vec<TaskWatchEvent> = Vec::new();
    let mut i: usize = first;
    assert(watch_views(out@) =~= watch_all(b.take(0)));
    while i < events.len() && i - first < most
        invariant
            first <= i <= events.len(),
            i - first <= most,
            most == batch_limit(limit),
            s == event_views(events@),
            b == batch(s, start_revision, limit),
            from_revision(s, start_revision) == s.skip(first as int),
            start_fault(start_revision, state) is None,
            forall|j: int| 0 <= j < i - first ==> !incomplete(#[trigger] b[j]),
            watch_views(out@) == watch_all(b.take(i - first)),
        decreases events.len() - i,
    {
        let event = &events[i];
        let ghost n = i - first;
        assert(s.skip(first as int)[n] == s[i as int]);
        assert(b[n] == event@);
        let prev_task = event.prev_task();
        if event.prev_revision.is_some() && prev_task.is_none() {
            proof {
                assert(first_incomplete(b, n));
                let k = choose|k: int| first_incomplete(b, k);
                assert(first_incomplete(b, k));
                if k < n {
                    assert(!incomplete(b[k]));
                } else if n < k {
                    assert(!incomplete(b[n]));
                }
            }
            let mut out: String = "task event ".to_owned();
            out.append(signed_text(event.revision).as_str());
            out.append(" has an incomplete previous state");
            return Err(StoreError::Database(out));
        }
        let ghost shown = out@;
        let seen = TaskWatchEvent { event_type: event.event_type, task: event.task(), prev_task };
        assert(seen@ == watch_of(event@));
        out.push(seen);
        assert(watch_views(out@) =~= watch_views(shown).push(seen@));
        assert(watch_all(b.take(n + 1)) =~= watch_all(b.take(n)).push(watch_of(b[n])));
        i = i + 1;
    }
    assert(b.take(i - first) =~= b);
    assert(!exists|k: int| first_incomplete(b, k));
    Ok(out)
}

} // verus!
