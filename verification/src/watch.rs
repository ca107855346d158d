//! A watcher that follows the log.

use vstd::prelude::*;
use vstd::string::*;
use crate::api::{header_bytes, resolve_watch_revision, validate_watch_revision, watch_start};
use crate::api::ApiError;
use crate::domain::{watch_views, EventView, FilterView, TaskFilter, TaskWatchEvent, WatchView};
use crate::errors::{Fault, StoreError};
use crate::laws::{lemma_batch_in_order, lemma_batches_cover};
use crate::numbers::parsed_integer;
use crate::replay::{batch, from_revision, replayed, start_fault, watch_all, watch_of};
use crate::repository::{revisions_ascend, RevisionState};
use crate::sequences::{lemma_filter_all, lemma_filter_members, lemma_filter_take};
use crate::text_laws::lemma_filter_meaning;

verus! {

broadcast use vstd::string::group_string_axioms;

/// How many events a watcher reads at once.
pub const WATCH_BATCH_SIZE: i64 = 256;

/// A watcher: the next revision that it will read, and what it wants to see.
#[derive(Debug)]
pub struct Watcher {
    pub next_revision: i64,
    pub filter: TaskFilter,
}

/// What a watcher does next.
#[derive(Debug)]
pub enum WatchStep {
    /// Send these events and read on at once.
    Send(Vec<TaskWatchEvent>),
    /// Wait for a notification or for the time to poll.
    Wait,
    /// Say that history was closed beyond the watcher, and stop.
    Compacted { compacted_revision: i64 },
    /// Report this error, and stop.
    Fail(String),
}

/// What a watcher does next.
pub enum StepView {
    Send(Seq<WatchView>),
    Wait,
    Compacted { compacted_revision: i64 },
    Fail(Seq<char>),
}

impl View for WatchStep {
    type V = StepView;

    open spec fn view(&self) -> StepView {
        match self {
            WatchStep::Send(v) => StepView::Send(watch_views(v@)),
            WatchStep::Wait => StepView::Wait,
            WatchStep::Compacted { compacted_revision } => StepView::Compacted {
                compacted_revision: *compacted_revision,
            },
            WatchStep::Fail(m) => StepView::Fail(m@),
        }
    }
}

/// The events that the filter wants, on either side of the change.
pub open spec fn selected(s: Seq<WatchView>, f: FilterView) -> Seq<WatchView> {
    s.filter(|w: WatchView| w.matches_filter(f))
}

/// What follows from a reading of the log.
pub open spec fn step_after(reading: Result<Seq<WatchView>, Fault>, f: FilterView) -> StepView {
    match reading {
        Ok(s) => if s.len() > 0 {
            StepView::Send(selected(s, f))
        } else {
            StepView::Wait
        },
        Err(Fault::Compacted { requested: _, compacted_revision }) => StepView::Compacted {
            compacted_revision,
        },
        Err(e) => StepView::Fail(e.message()),
    }
}

/// Where the watcher reads on: after the last event that it has read, wanted or
/// not.
pub open spec fn next_after(reading: Result<Seq<WatchView>, Fault>, next: i64) -> int {
    match reading {
        Ok(s) => if s.len() > 0 {
            s.last().task.revision + 1
        } else {
            next as int
        },
        Err(_) => next as int,
    }
}

/// What is said when history was closed beyond a watcher.
#[derive(Debug, Clone, Copy, PartialEq, Eq, Structural)]
pub struct CompactedEvent {
    pub scheduled_revision: i64,
    pub current_revision: i64,
}

/// What to say when history was closed beyond a watcher; the watermark stands for
/// the current revision if that cannot be read.
pub fn compacted_event(scheduled_revision: i64, state: Option<RevisionState>) -> (r: CompactedEvent)
    ensures
        r.scheduled_revision == scheduled_revision,
        r.current_revision == match state {
            Some(s) => s.current_revision,
            None => scheduled_revision,
        },
{
    let current_revision = match state {
        Some(s) => s.current_revision,
        None => scheduled_revision,
    };
    CompactedEvent { scheduled_revision, current_revision }
}

/// The view of what starting a watch returns.
pub open spec fn watcher_result(r: Result<Watcher, ApiError>) -> Result<(i64, FilterView), Fault> {
    match r {
        Ok(w) => Ok((w.next_revision, w.filter@)),
        Err(e) => Err(e@),
    }
}

/// What starting a watch gives.
pub open spec fn started(
    revision: Option<i64>,
    last_event_id: Option<Seq<u8>>,
    state: RevisionState,
    filter: FilterView,
) -> Result<(i64, FilterView), Fault> {
    match watch_start(revision, last_event_id, state.current_revision) {
        Err(e) => Err(e),
        Ok(start) => match start_fault(start, state) {
            Some(e) => Err(e),
            None => Ok((start, filter)),
        },
    }
}

impl Watcher {
    /// Starts a watch where the request asks for it, if the log can be read there.
    pub fn start(
        revision: Option<i64>,
        last_event_id: &Option<Vec<u8>>,
        state: RevisionState,
        filter: TaskFilter,
    ) -> (r: Result<Watcher, ApiError>)
        requires
            state.current_revision < i64::MAX || watch_start(
                revision,
                header_bytes(*last_event_id),
                state.current_revision,
            ) is Err || watch_start(revision, header_bytes(*last_event_id), state.current_revision)->Ok_0
                <= state.scheduled_revision,
        ensures
            watcher_result(r) == started(revision, header_bytes(*last_event_id), state, filter@),
            r matches Ok(w) ==> w.filter@.list == filter.list && w.filter@.state == filter.state
                && w.filter@.labels == filter.labels@,
    {
        let next_revision = match resolve_watch_revision(
            revision,
            last_event_id,
            state.current_revision,
        ) {
            Err(e) => {
                return Err(e);
            },
            Ok(n) => n,
        };
        match validate_watch_revision(
            next_revision,
            state.current_revision,
            state.scheduled_revision,
        ) {
            Err(e) => {
                return Err(e);
            },
            Ok(_) => {},
        }
        Ok(Watcher { next_revision, filter })
    }

    /// Takes in a reading of the log from the next revision, and decides what to
    /// do.
    pub fn on_batch(&mut self, reading: Result<Vec<TaskWatchEvent>, StoreError>) -> (r: WatchStep)
        requires
            next_after(replayed(reading), old(self).next_revision) <= i64::MAX,
        ensures
            r@ == step_after(replayed(reading), old(self).filter@),
            final(self).next_revision == next_after(
                replayed(reading),
                old(self).next_revision,
            ),
            final(self).filter@ == old(self).filter@,
            r matches WatchStep::Send(v) ==> forall|w: WatchView| #[trigger]
                watch_views(v@).contains(w) <==> replayed(reading)->Ok_0.contains(w) && (
                old(self).filter@.matches(w.task) || (w.prev_task is Some
                    && old(self).filter@.matches(w.prev_task->0))),
    {
        let events = match reading {
            Ok(v) => v,
            Err(e) => {
                return match e {
                    StoreError::Compacted { compacted_revision, .. } => WatchStep::Compacted {
                        compacted_revision,
                    },
                    other => WatchStep::Fail(other.to_string()),
                };
            },
        };
        if events.len() == 0 {
            return WatchStep::Wait;
        }
        let ghost s = watch_views(events@);
        let ghost f = self.filter@;
        let ghost p = |w: WatchView| w.matches_filter(f);
        let last: usize = events.len() - 1;
        assert(s.last() == events@[last as int]@);
        self.next_revision = events[last].task.metadata.revision + 1;
        let mut out: Vec<TaskWatchEvent> = Vec::new();
        assert(watch_views(out@) =~= s.take(0).filter(p)) by {
            lemma_filter_all(s.take(0), p);
        }
        for event in it: events
            invariant
                watch_views(it.seq()) == s,
                p == (|w: WatchView| w.matches_filter(f)),
                f == self.filter@,
                watch_views(out@) == s.take(it.index()).filter(p),
        {
            let ghost before = out@;
            assert(s[it.index()] == event@);
            proof {
                lemma_filter_take(s, p, it.index());
            }
            if event.matches_filter(&self.filter) {
                out.push(event);
                assert(watch_views(out@) =~= watch_views(before).push(event@));
            }
        }
        assert(s.take(s.len() as int) =~= s);
        assert forall|w: WatchView| #[trigger] watch_views(out@).contains(w) <==> s.contains(w)
            && p(w) by {
            lemma_filter_members(s, p, w);
        }
        WatchStep::Send(out)
    }
}

// ---------------------------------------------------------------------- laws

/// All that a watcher from `start` is to see.
pub open spec fn to_be_seen(s: Seq<EventView>, start: i64, f: FilterView) -> Seq<WatchView> {
    selected(watch_all(from_revision(s, start)), f)
}

/// What a watcher sends for one batch, followed by all that it is to see from
/// where it reads on, is all that it is to see: nothing is lost or sent twice,
/// and the order is that of the revisions.
pub proof fn lemma_watch_progress(s: Seq<EventView>, start: i64, limit: i64, f: FilterView)
    requires
        revisions_ascend(s),
        batch(s, start, limit).len() > 0,
        batch(s, start, limit).last().revision < i64::MAX,
    ensures
        ({
            let reading = Ok::<Seq<WatchView>, Fault>(watch_all(batch(s, start, limit)));
            let next = next_after(reading, start) as i64;
            &&& start < next
            &&& step_after(reading, f) == StepView::Send(
                selected(watch_all(batch(s, start, limit)), f),
            )
            &&& to_be_seen(s, start, f) == selected(watch_all(batch(s, start, limit)), f)
                + to_be_seen(s, next, f)
        }),
{
    let b = batch(s, start, limit);
    let w = watch_all(b);
    assert(w.last() == watch_of(b.last()));
    let next = (b.last().revision + 1) as i64;
    let rest = from_revision(s, next);
    let p = |x: WatchView| x.matches_filter(f);
    lemma_batches_cover(s, start, limit);
    lemma_batch_in_order(s, start, limit);
    assert(watch_all(b + rest) =~= watch_all(b) + watch_all(rest));
    Seq::filter_distributes_over_add(watch_all(b), watch_all(rest), p);
}

/// The watcher that a request starts wants what the request asks for: the list, the
/// state and every label of it. It begins where the request says, at a revision
/// that can be read; one that cannot is refused.
pub proof fn lemma_watcher_of_request(
    r: Result<Watcher, ApiError>,
    revision: Option<i64>,
    last_event_id: Option<Seq<u8>>,
    state: RevisionState,
    filter: FilterView,
)
    requires
        watcher_result(r) == started(revision, last_event_id, state, filter),
    ensures
        r matches Ok(w) ==> {
            &&& w.filter.list == filter.list
            &&& w.filter.state == filter.state
            &&& w.filter.labels@ == filter.labels
            &&& state.scheduled_revision < w.next_revision <= state.current_revision + 1
            &&& revision is Some ==> Some(w.next_revision) == revision
            &&& revision is None && last_event_id is None ==> w.next_revision
                == state.current_revision + 1
            &&& revision is None && last_event_id is Some ==> parsed_integer(last_event_id->0)
                is Some && w.next_revision == parsed_integer(last_event_id->0)->0 + 1
        },
        revision matches Some(n) ==> {
            &&& r is Ok <==> state.scheduled_revision < n <= state.current_revision + 1
            &&& n <= state.scheduled_revision ==> r is Err && r->Err_0@ == (Fault::Compacted {
                requested: n,
                compacted_revision: state.scheduled_revision,
            })
            &&& n > state.scheduled_revision && n > state.current_revision + 1 ==> r is Err
                && r->Err_0@ == (Fault::FutureRevision {
                requested: n,
                current_revision: state.current_revision,
            })
        },
{
}

/// A watch that a request starts sends, of every reading, exactly those events of
/// which the task on either side of the change has the list, the state and every
/// `key:value` pair that the request asks for.
pub proof fn lemma_watch_sends(
    r: Result<Watcher, ApiError>,
    revision: Option<i64>,
    last_event_id: Option<Seq<u8>>,
    state: RevisionState,
    filter: FilterView,
    reading: Seq<WatchView>,
    w: WatchView,
)
    requires
        watcher_result(r) == started(revision, last_event_id, state, filter),
        r is Ok,
        reading.len() > 0,
    ensures
        step_after(Ok::<Seq<WatchView>, Fault>(reading), r->Ok_0.filter@) matches StepView::Send(v)
            && (v.contains(w) <==> reading.contains(w) && ({
            ||| {
                &&& filter.list is None || filter.list == Some(w.task.list)
                &&& filter.state is None || filter.state == Some(w.task.state)
                &&& forall|k: Seq<char>, x: Seq<char>| #[trigger]
                    filter.labels.contains_pair(k, x) ==> w.task.labels.contains_pair(k, x)
            }
            ||| {
                &&& w.prev_task is Some
                &&& filter.list is None || filter.list == Some(w.prev_task->0.list)
                &&& filter.state is None || filter.state == Some(w.prev_task->0.state)
                &&& forall|k: Seq<char>, x: Seq<char>| #[trigger]
                    filter.labels.contains_pair(k, x) ==> w.prev_task->0.labels.contains_pair(k, x)
            }
        })),
{
    let p = |x: WatchView| x.matches_filter(filter);
    lemma_filter_members(reading, p, w);
    lemma_filter_meaning(filter, w.task);
    if w.prev_task is Some {
        lemma_filter_meaning(filter, w.prev_task->0);
    }
}

/// One more event at the end of a reading is sent after the others if it is wanted,
/// and changes nothing else.
pub proof fn lemma_watch_sends_in_order(reading: Seq<WatchView>, w: WatchView, f: FilterView)
    requires
        reading.len() > 0,
    ensures
        step_after(Ok::<Seq<WatchView>, Fault>(seq![w]), f) == StepView::Send(
            if f.matches(w.task) || (w.prev_task is Some && f.matches(w.prev_task->0)) {
                seq![w]
            } else {
                Seq::empty()
            },
        ),
        step_after(Ok::<Seq<WatchView>, Fault>(reading.push(w)), f) == StepView::Send(
            step_after(Ok::<Seq<WatchView>, Fault>(reading), f)->Send_0 + step_after(
                Ok::<Seq<WatchView>, Fault>(seq![w]),
                f,
            )->Send_0,
        ),
        step_after(Ok::<Seq<WatchView>, Fault>(Seq::empty()), f) == StepView::Wait,
{
    reveal(Seq::filter);
    let p = |x: WatchView| x.matches_filter(f);
    let one = seq![w];
    assert(one.drop_last() =~= Seq::<WatchView>::empty());
    assert(one.drop_last().filter(p) =~= Seq::<WatchView>::empty());
    assert(one.filter(p) =~= if p(w) {
        seq![w]
    } else {
        Seq::empty()
    });
    assert(reading.push(w) =~= reading + one);
    Seq::filter_distributes_over_add(reading, one, p);
}

/// After a reading the watcher reads on right after the last event of it, wanted or
/// not; if there was none, or the log could not be read, it stays where it is. It
/// stops with the watermark if history was closed beyond it, and with what is said
/// of any other fault.
pub proof fn lemma_watch_reads_on(
    reading: Seq<WatchView>,
    fault: Fault,
    next: i64,
    requested: i64,
    watermark: i64,
    f: FilterView,
)
    ensures
        reading.len() > 0 ==> next_after(Ok::<Seq<WatchView>, Fault>(reading), next)
            == reading[reading.len() - 1].task.revision + 1,
        reading.len() == 0 ==> next_after(Ok::<Seq<WatchView>, Fault>(reading), next) == next,
        next_after(Err::<Seq<WatchView>, Fault>(fault), next) == next,
        step_after(
            Err::<Seq<WatchView>, Fault>(
                Fault::Compacted { requested, compacted_revision: watermark },
            ),
            f,
        ) == (StepView::Compacted { compacted_revision: watermark }),
        !(fault is Compacted) ==> step_after(Err::<Seq<WatchView>, Fault>(fault), f)
            == StepView::Fail(fault.message()),
{
}

/// A watcher reads up to 256 events at once.
pub proof fn lemma_watch_batch(s: Seq<EventView>, start: i64)
    ensures
        from_revision(s, start).len() <= 256 ==> batch(s, start, WATCH_BATCH_SIZE)
            == from_revision(s, start),
        from_revision(s, start).len() > 256 ==> batch(s, start, WATCH_BATCH_SIZE)
            == from_revision(s, start).take(256),
{
}

/// A watcher that waits has seen all that there was.
pub proof fn lemma_watch_caught_up(s: Seq<EventView>, start: i64, limit: i64, f: FilterView)
    requires
        revisions_ascend(s),
        batch(s, start, limit).len() == 0,
    ensures
        to_be_seen(s, start, f) == Seq::<WatchView>::empty(),
        step_after(Ok::<Seq<WatchView>, Fault>(watch_all(batch(s, start, limit))), f)
            == StepView::Wait,
{
    let p = |x: WatchView| x.matches_filter(f);
    lemma_batch_in_order(s, start, limit);
    assert(watch_all(from_revision(s, start)) =~= Seq::<WatchView>::empty());
    lemma_filter_all(watch_all(from_revision(s, start)), p);
}

/// An update that takes a task out of what a filter wants is still seen.
pub proof fn lemma_leaving_is_seen(e: EventView, f: FilterView)
    requires
        e.has_previous(),
        f.matches(e.prev_task()->0),
    ensures
        watch_of(e).matches_filter(f),
{
}

} // verus!
