//! Which events a later state of their task has made superfluous.

use std::collections::HashSet;
use vstd::prelude::*;
use crate::domain::{EventView, TaskId};
use crate::repository::{revisions_ascend, COMPACTION_BATCH_SIZE};
use crate::sequences::{lemma_filter_all, lemma_filter_filter};
use crate::sequences::{lemma_filter_members, lemma_filter_prefix, lemma_filter_take};

verus! {

broadcast use vstd::std_specs::hash::group_hash_axioms;

/// An event by its revision and its task.
pub type Stamp = (i64, TaskId);

/// The stamp of an event.
pub open spec fn stamp(e: EventView) -> Stamp {
    (e.revision, e.task_id)
}

/// The stamps of the events.
pub open spec fn stamps(s: Seq<EventView>) -> Seq<Stamp> {
    s.map_values(|e: EventView| stamp(e))
}

/// The revisions of the stamps ascend.
pub open spec fn stamps_ascend(st: Seq<Stamp>) -> bool {
    forall|i: int, j: int| 0 <= i < j < st.len() ==> (#[trigger] st[i]).0 < (#[trigger] st[j]).0
}

/// At the revision `target` the task has a later event than this one.
pub open spec fn superseded(st: Seq<Stamp>, x: Stamp, target: i64) -> bool {
    &&& x.0 <= target
    &&& exists|j: int|
        0 <= j < st.len() && (#[trigger] st[j]).1 == x.1 && x.0 < st[j].0 <= target
}

/// The superseded events, by revision.
pub open spec fn garbage(st: Seq<Stamp>, target: i64) -> Seq<i64> {
    st.filter(|x: Stamp| superseded(st, x, target)).map_values(|x: Stamp| x.0)
}

/// The superseded events with the lowest revisions, as many as one step removes.
pub open spec fn garbage_batch(st: Seq<Stamp>, target: i64) -> Seq<i64> {
    let all = garbage(st, target);
    if all.len() <= COMPACTION_BATCH_SIZE {
        all
    } else {
        all.take(COMPACTION_BATCH_SIZE as int)
    }
}

/// The events without those of the given revisions.
pub open spec fn without(s: Seq<EventView>, revisions: Seq<i64>) -> Seq<EventView> {
    s.filter(|e: EventView| !revisions.contains(e.revision))
}

/// The events that are not superseded at `target`.
pub open spec fn compacted(s: Seq<EventView>, target: i64) -> Seq<EventView> {
    s.filter(|e: EventView| !superseded(stamps(s), stamp(e), target))
}

/// The revisions of the superseded events with the lowest revisions, as many as
/// one step of garbage collection removes.
pub fn superseded_batch(rows: &Vec<Stamp>, target_revision: i64) -> (r: Vec<i64>)
    requires
        stamps_ascend(rows@),
    ensures
        r@ == garbage_batch(rows@, target_revision),
{
    let ghost st = rows@;
    let mut later: HashSet<TaskId> = HashSet::new();
    let mut flags: Vec<bool> = Vec::new();
    let mut n: usize = rows.len();
    while 0 < n
        invariant
            n <= rows.len(),
            st == rows@,
            stamps_ascend(st),
            flags.len() == rows.len() - n,
            forall|id: TaskId| #[trigger]
                later@.contains(id) <==> exists|j: int|
                    n <= j < st.len() && (#[trigger] st[j]).1 == id && st[j].0 <= target_revision,
            forall|k: int|
                0 <= k < flags.len() ==> (#[trigger] flags@[k]) == superseded(
                    st,
                    st[st.len() - 1 - k],
                    target_revision,
                ),
        decreases n,
    {
        let ghost later_before = later@;
        let ghost from = n as int;
        n = n - 1;
        let row = rows[n];
        let old: bool = row.0 <= target_revision && later.contains(&row.1);
        assert(old == superseded(st, row, target_revision)) by {
            if old {
                let j = choose|j: int|
                    from <= j < st.len() && (#[trigger] st[j]).1 == row.1 && st[j].0
                        <= target_revision;
                assert(st[n as int].0 < st[j].0);
            }
            if superseded(st, row, target_revision) {
                let j = choose|j: int|
                    0 <= j < st.len() && (#[trigger] st[j]).1 == row.1 && row.0 < st[j].0
                        <= target_revision;
                if j < n {
                    assert(st[j].0 < st[n as int].0);
                }
                assert(later_before.contains(row.1));
            }
        }
        if row.0 <= target_revision {
            later.insert(row.1);
        }
        assert forall|id: TaskId| #[trigger] later@.contains(id) <==> exists|j: int|
            n <= j < st.len() && (#[trigger] st[j]).1 == id && st[j].0 <= target_revision by {
            if later@.contains(id) {
                if later_before.contains(id) {
                    let j = choose|j: int|
                        from <= j < st.len() && (#[trigger] st[j]).1 == id && st[j].0
                            <= target_revision;
                    assert(n <= j && st[j].1 == id);
                } else {
                    assert(st[n as int].1 == id);
                }
            }
            if exists|j: int|
                n <= j < st.len() && (#[trigger] st[j]).1 == id && st[j].0 <= target_revision {
                let j = choose|j: int|
                    n <= j < st.len() && (#[trigger] st[j]).1 == id && st[j].0 <= target_revision;
                if j != n {
                    assert(later_before.contains(id));
                }
            }
        }
        flags.push(old);
    }
    let ghost p = |x: Stamp| superseded(st, x, target_revision);
    let ghost f = |x: Stamp| x.0;
    let mut out: Vec<i64> = Vec::new();
    let mut i: usize = 0;
    assert(st.take(0).filter(p) =~= Seq::<Stamp>::empty()) by {
        lemma_filter_all(st.take(0), p);
    }
    assert(out@ =~= st.take(0).filter(p).map_values(f));
    while i < rows.len() && out.len() < COMPACTION_BATCH_SIZE
        invariant
            i <= rows.len(),
            st == rows@,
            flags.len() == rows.len(),
            p == (|x: Stamp| superseded(st, x, target_revision)),
            f == (|x: Stamp| x.0),
            out.len() <= COMPACTION_BATCH_SIZE,
            out@ == st.take(i as int).filter(p).map_values(f),
            forall|k: int|
                0 <= k < flags.len() ==> (#[trigger] flags@[k]) == superseded(
                    st,
                    st[st.len() - 1 - k],
                    target_revision,
                ),
        decreases rows.len() - i,
    {
        let at: usize = rows.len() - 1 - i;
        assert(flags@[at as int] == p(st[i as int]));
        proof {
            lemma_filter_take(st, p, i as int);
        }
        if flags[at] {
            let ghost kept = st.take(i as int).filter(p);
            out.push(rows[i].0);
            assert(kept.push(st[i as int]).map_values(f) =~= kept.map_values(f).push(
                f(st[i as int]),
            ));
        }
        i = i + 1;
    }
    proof {
        let all = st.filter(p);
        let kept = st.take(i as int).filter(p);
        lemma_filter_prefix(st, p, i as int);
        assert(garbage(st, target_revision) == all.map_values(f));
        assert(all.map_values(f).take(kept.len() as int) =~= all.take(kept.len() as int).map_values(
            f,
        ));
        if i == rows.len() {
            assert(st.take(i as int) =~= st);
            assert(all.map_values(f).take(all.len() as int) =~= all.map_values(f));
        }
    }
    out
}

// ---------------------------------------------------------- what is preserved

/// A filtered log is in order still.
pub proof fn lemma_filter_keeps_order(s: Seq<EventView>, p: spec_fn(EventView) -> bool)
    requires
        revisions_ascend(s),
    ensures
        revisions_ascend(s.filter(p)),
    decreases s.len(),
{
    reveal(Seq::filter);
    if s.len() > 0 {
        let front = s.drop_last();
        assert(revisions_ascend(front)) by {
            assert forall|i: int, j: int| 0 <= i < j < front.len() implies (
            #[trigger] front[i]).revision < (#[trigger] front[j]).revision by {
                assert(s[i].revision < s[j].revision);
            }
        }
        lemma_filter_keeps_order(front, p);
        let kept = front.filter(p);
        if p(s.last()) {
            let all = kept.push(s.last());
            assert forall|i: int, j: int| 0 <= i < j < all.len() implies (
            #[trigger] all[i]).revision < (#[trigger] all[j]).revision by {
                if j == kept.len() {
                    lemma_filter_members(front, p, kept[i]);
                    assert(kept.contains(kept[i]));
                    let k = choose|k: int| 0 <= k < front.len() && front[k] == kept[i];
                    assert(s[k].revision < s[s.len() - 1].revision);
                } else {
                    assert(kept[i].revision < kept[j].revision);
                }
            }
        }
    }
}

/// Two events of a log with one revision are the same event.
pub proof fn lemma_revision_identifies(s: Seq<EventView>, i: int, j: int)
    requires
        revisions_ascend(s),
        0 <= i < s.len(),
        0 <= j < s.len(),
        s[i].revision == s[j].revision,
    ensures
        i == j,
{
    if i < j {
        assert(s[i].revision < s[j].revision);
    } else if j < i {
        assert(s[j].revision < s[i].revision);
    }
}

/// Of the events of a task at or before `target` the last is not superseded.
pub proof fn lemma_anchor(s: Seq<EventView>, j: int, target: i64) -> (k: int)
    requires
        revisions_ascend(s),
        0 <= j < s.len(),
        s[j].revision <= target,
    ensures
        j <= k < s.len(),
        s[k].task_id == s[j].task_id,
        s[k].revision <= target,
        s[j].revision <= s[k].revision,
        !superseded(stamps(s), stamp(s[k]), target),
    decreases s.len() - j,
{
    let st = stamps(s);
    if superseded(st, stamp(s[j]), target) {
        let m = choose|m: int|
            0 <= m < st.len() && (#[trigger] st[m]).1 == s[j].task_id && s[j].revision < st[m].0
                <= target;
        assert(st[m] == stamp(s[m]));
        if m < j {
            assert(s[m].revision < s[j].revision);
        }
        if m == j {
            assert(false);
        }
        lemma_anchor(s, m, target)
    } else {
        j
    }
}

/// A superseded event is one that the garbage lists, and the other way round.
pub proof fn lemma_garbage_members(s: Seq<EventView>, target: i64, i: int)
    requires
        revisions_ascend(s),
        0 <= i < s.len(),
    ensures
        garbage(stamps(s), target).contains(s[i].revision) <==> superseded(
            stamps(s),
            stamp(s[i]),
            target,
        ),
{
    let st = stamps(s);
    let p = |x: Stamp| superseded(st, x, target);
    let f = |x: Stamp| x.0;
    let kept = st.filter(p);
    let g = garbage(st, target);
    assert(g == kept.map_values(f));
    assert(st[i] == stamp(s[i]));
    if g.contains(s[i].revision) {
        let a = choose|a: int| 0 <= a < g.len() && g[a] == s[i].revision;
        assert(kept.contains(kept[a]));
        lemma_filter_members(st, p, kept[a]);
        let b = choose|b: int| 0 <= b < st.len() && st[b] == kept[a];
        assert(st[b] == stamp(s[b]));
        lemma_revision_identifies(s, b, i);
    }
    if superseded(st, stamp(s[i]), target) {
        lemma_filter_members(st, p, st[i]);
        assert(st.contains(st[i]));
        let a = choose|a: int| 0 <= a < kept.len() && kept[a] == st[i];
        assert(g[a] == s[i].revision);
    }
}

/// Removing superseded events leaves the same events superseded among the rest.
pub proof fn lemma_superseded_after(s: Seq<EventView>, doomed: Seq<i64>, target: i64, e: EventView)
    requires
        revisions_ascend(s),
        forall|i: int|
            0 <= i < s.len() && doomed.contains((#[trigger] s[i]).revision) ==> superseded(
                stamps(s),
                stamp(s[i]),
                target,
            ),
    ensures
        superseded(stamps(without(s, doomed)), stamp(e), target) <==> superseded(
            stamps(s),
            stamp(e),
            target,
        ),
{
    let q = |x: EventView| !doomed.contains(x.revision);
    let t = without(s, doomed);
    let st = stamps(s);
    let tt = stamps(t);
    assert(t == s.filter(q));
    if superseded(tt, stamp(e), target) {
        let j = choose|j: int|
            0 <= j < tt.len() && (#[trigger] tt[j]).1 == e.task_id && e.revision < tt[j].0
                <= target;
        assert(tt[j] == stamp(t[j]));
        assert(t.contains(t[j]));
        lemma_filter_members(s, q, t[j]);
        let k = choose|k: int| 0 <= k < s.len() && s[k] == t[j];
        assert(st[k] == stamp(s[k]));
        assert(st[k].1 == e.task_id && e.revision < st[k].0 <= target);
    }
    if superseded(st, stamp(e), target) {
        let j = choose|j: int|
            0 <= j < st.len() && (#[trigger] st[j]).1 == e.task_id && e.revision < st[j].0
                <= target;
        assert(st[j] == stamp(s[j]));
        let k = lemma_anchor(s, j, target);
        assert(!doomed.contains(s[k].revision));
        assert(s.contains(s[k]));
        lemma_filter_members(s, q, s[k]);
        let m = choose|m: int| 0 <= m < t.len() && t[m] == s[k];
        assert(tt[m] == stamp(t[m]));
        assert(tt[m].1 == e.task_id && e.revision < tt[m].0 <= target);
    }
}

/// Whatever superseded events are removed first, the same events remain in the
/// end.
pub proof fn lemma_compacted_after(s: Seq<EventView>, doomed: Seq<i64>, target: i64)
    requires
        revisions_ascend(s),
        forall|i: int|
            0 <= i < s.len() && doomed.contains((#[trigger] s[i]).revision) ==> superseded(
                stamps(s),
                stamp(s[i]),
                target,
            ),
    ensures
        compacted(without(s, doomed), target) == compacted(s, target),
{
    let t = without(s, doomed);
    let q = |x: EventView| !doomed.contains(x.revision);
    let p = |e: EventView| !superseded(stamps(t), stamp(e), target);
    let r = |e: EventView| !superseded(stamps(s), stamp(e), target);
    assert forall|i: int| 0 <= i < s.len() implies (r(#[trigger] s[i]) <==> q(s[i]) && p(s[i])) by {
        lemma_superseded_after(s, doomed, target, s[i]);
    }
    lemma_filter_filter(s, q, p, r);
}

/// One step of garbage collection removes only superseded events.
pub proof fn lemma_batch_is_garbage(s: Seq<EventView>, target: i64)
    requires
        revisions_ascend(s),
    ensures
        forall|i: int|
            0 <= i < s.len() && garbage_batch(stamps(s), target).contains(
                (#[trigger] s[i]).revision,
            ) ==> superseded(stamps(s), stamp(s[i]), target),
{
    let g = garbage(stamps(s), target);
    let b = garbage_batch(stamps(s), target);
    assert forall|i: int| 0 <= i < s.len() && b.contains((#[trigger] s[i]).revision) implies superseded(
        stamps(s),
        stamp(s[i]),
        target,
    ) by {
        let k = choose|k: int| 0 <= k < b.len() && b[k] == s[i].revision;
        assert(g[k] == s[i].revision);
        lemma_garbage_members(s, target, i);
    }
}

/// Where nothing is superseded, compaction keeps everything.
pub proof fn lemma_nothing_superseded(s: Seq<EventView>, target: i64)
    requires
        revisions_ascend(s),
        garbage_batch(stamps(s), target).len() == 0,
    ensures
        compacted(s, target) == s,
{
    let r = |e: EventView| !superseded(stamps(s), stamp(e), target);
    assert forall|i: int| 0 <= i < s.len() implies r(#[trigger] s[i]) by {
        lemma_garbage_members(s, target, i);
    }
    lemma_filter_all(s, r);
}

/// A revision in the garbage is that of some event.
pub proof fn lemma_garbage_in_log(s: Seq<EventView>, target: i64, k: int) -> (i: int)
    requires
        revisions_ascend(s),
        0 <= k < garbage(stamps(s), target).len(),
    ensures
        0 <= i < s.len(),
        s[i].revision == garbage(stamps(s), target)[k],
{
    let st = stamps(s);
    let p = |x: Stamp| superseded(st, x, target);
    let kept = st.filter(p);
    lemma_filter_members(st, p, kept[k]);
    assert(kept.contains(kept[k]));
    let i = choose|i: int| 0 <= i < st.len() && st[i] == kept[k];
    assert(st[i] == stamp(s[i]));
    i
}

} // verus!
