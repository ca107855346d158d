//! Lists of tasks as their last events left them.

use std::collections::HashSet;
use vstd::prelude::*;
use crate::domain::{earlier, event_views, task_views, EventView, FilterView, Task, TaskEvent};
use crate::domain::{TaskFilter, TaskId, TaskView};
use crate::repository::latest_at;

verus! {

broadcast use vstd::std_specs::hash::group_hash_axioms;

/// The order of a list: by time of creation, then by identifier.
pub open spec fn listed_before(a: TaskView, b: TaskView) -> bool {
    earlier(a.created_at, b.created_at) || (a.created_at == b.created_at && a.id < b.id)
}

/// The `j`-th event is the last of its task and leaves it as the filter wants.
pub open spec fn wanted(s: Seq<EventView>, f: FilterView, j: int) -> bool {
    latest_at(s, j) && f.matches(s[j].task())
}

/// `t` is a task that the filter wants, as its last event left it.
pub open spec fn wanted_task(s: Seq<EventView>, f: FilterView, t: TaskView) -> bool {
    exists|j: int| wanted(s, f, j) && t == s[j].task()
}

/// The tasks are in the order of a list.
pub open spec fn in_list_order(tasks: Seq<TaskView>) -> bool {
    forall|a: int, b: int|
        0 <= a < b < tasks.len() ==> listed_before(#[trigger] tasks[a], #[trigger] tasks[b])
}

/// The tasks are exactly those that the filter wants, as their last events left
/// them, in the order of a list.
pub open spec fn is_listing(s: Seq<EventView>, f: FilterView, tasks: Seq<TaskView>) -> bool {
    &&& in_list_order(tasks)
    &&& forall|t: TaskView| #[trigger] tasks.contains(t) <==> wanted_task(s, f, t)
}

proof fn lemma_listed_once(tasks: Seq<TaskView>, a: int, b: int)
    requires
        in_list_order(tasks),
        0 <= a < tasks.len(),
        0 <= b < tasks.len(),
        tasks[a] == tasks[b],
    ensures
        a == b,
{
    if a < b {
        assert(listed_before(tasks[a], tasks[b]));
    } else if b < a {
        assert(listed_before(tasks[b], tasks[a]));
    }
}

/// There is one list of the tasks that a filter wants.
pub proof fn lemma_listing_unique(
    s: Seq<EventView>,
    f: FilterView,
    x: Seq<TaskView>,
    y: Seq<TaskView>,
)
    requires
        is_listing(s, f, x),
        is_listing(s, f, y),
    ensures
        x == y,
{
    assert forall|t: TaskView| #[trigger] x.contains(t) <==> y.contains(t) by {
        assert(x.contains(t) <==> wanted_task(s, f, t));
        assert(y.contains(t) <==> wanted_task(s, f, t));
    }
    lemma_ordered_equal(x, y);
}

proof fn lemma_ordered_equal(x: Seq<TaskView>, y: Seq<TaskView>)
    requires
        in_list_order(x),
        in_list_order(y),
        forall|t: TaskView| #[trigger] x.contains(t) <==> y.contains(t),
    ensures
        x == y,
    decreases x.len(),
{
    if x.len() == 0 {
        if y.len() > 0 {
            assert(y.contains(y[0]));
            assert(x.contains(y[0]));
        }
        assert(x =~= y);
    } else {
        assert(x.contains(x[0]));
        assert(y.contains(x[0]));
        let j = choose|j: int| 0 <= j < y.len() && y[j] == x[0];
        assert(y.contains(y[0]));
        assert(x.contains(y[0]));
        let i = choose|i: int| 0 <= i < x.len() && x[i] == y[0];
        if 0 < j {
            assert(listed_before(y[0], y[j]));
            if 0 < i {
                assert(listed_before(x[0], x[i]));
            }
        }
        assert(x[0] == y[0]);
        let xt = x.drop_first();
        let yt = y.drop_first();
        assert(in_list_order(xt)) by {
            assert forall|a: int, b: int| 0 <= a < b < xt.len() implies listed_before(
                #[trigger] xt[a],
                #[trigger] xt[b],
            ) by {
                assert(listed_before(x[a + 1], x[b + 1]));
            }
        }
        assert(in_list_order(yt)) by {
            assert forall|a: int, b: int| 0 <= a < b < yt.len() implies listed_before(
                #[trigger] yt[a],
                #[trigger] yt[b],
            ) by {
                assert(listed_before(y[a + 1], y[b + 1]));
            }
        }
        assert forall|t: TaskView| #[trigger] xt.contains(t) <==> yt.contains(t) by {
            if xt.contains(t) {
                let a = choose|a: int| 0 <= a < xt.len() && xt[a] == t;
                assert(x[a + 1] == t);
                assert(x.contains(t));
                assert(y.contains(t));
                let b = choose|b: int| 0 <= b < y.len() && y[b] == t;
                if b == 0 {
                    lemma_listed_once(x, a + 1, 0);
                }
                assert(yt[b - 1] == t);
            }
            if yt.contains(t) {
                let b = choose|b: int| 0 <= b < yt.len() && yt[b] == t;
                assert(y[b + 1] == t);
                assert(y.contains(t));
                assert(x.contains(t));
                let a = choose|a: int| 0 <= a < x.len() && x[a] == t;
                if a == 0 {
                    lemma_listed_once(y, b + 1, 0);
                }
                assert(xt[a - 1] == t);
            }
        }
        lemma_ordered_equal(xt, yt);
        assert(x =~= seq![x[0]] + xt);
        assert(y =~= seq![y[0]] + yt);
    }
}

fn comes_before(a: &Task, b: &Task) -> (r: bool)
    ensures
        r == listed_before(a@, b@),
{
    a.metadata.created_at.before(b.metadata.created_at) || (a.metadata.created_at
        == b.metadata.created_at && a.metadata.id < b.metadata.id)
}

/// Puts a task where the order of the list wants it.
fn insert_listed(tasks: &mut Vec<Task>, task: Task)
    requires
        in_list_order(task_views(old(tasks)@)),
        forall|i: int|
            0 <= i < old(tasks)@.len() ==> (#[trigger] task_views(old(tasks)@)[i]).id != task@.id,
    ensures
        in_list_order(task_views(final(tasks)@)),
        forall|t: TaskView| #[trigger]
            task_views(final(tasks)@).contains(t) <==> t == task@ || task_views(
                old(tasks)@,
            ).contains(t),
{
    let ghost old_tasks = task_views(tasks@);
    let mut at: usize = tasks.len();
    while 0 < at && comes_before(&task, &tasks[at - 1])
        invariant
            at <= tasks.len(),
            old_tasks == task_views(tasks@),
            forall|i: int| at <= i < old_tasks.len() ==> listed_before(task@, #[trigger] old_tasks[i]),
        decreases at,
    {
        assert(old_tasks[at - 1] == tasks@[at - 1]@);
        at = at - 1;
    }
    if 0 < at {
        assert(old_tasks[at - 1] == tasks@[at - 1]@);
        assert(listed_before(old_tasks[at - 1], task@));
    }
    let ghost new_task = task@;
    tasks.insert(at, task);
    let ghost new_tasks = task_views(tasks@);
    assert(new_tasks =~= old_tasks.insert(at as int, new_task));
    proof {
        assert forall|a: int, b: int| 0 <= a < b < new_tasks.len() implies listed_before(
            #[trigger] new_tasks[a],
            #[trigger] new_tasks[b],
        ) by {
            let x = if a < at { a } else { a - 1 };
            let y = if b < at { b } else { b - 1 };
            if a == at {
                assert(new_tasks[b] == old_tasks[y]);
            } else if b == at {
                assert(new_tasks[a] == old_tasks[x]);
                if x < at - 1 {
                    assert(listed_before(old_tasks[x], old_tasks[at - 1]));
                }
            } else {
                assert(new_tasks[a] == old_tasks[x] && new_tasks[b] == old_tasks[y]);
                assert(listed_before(old_tasks[x], old_tasks[y]));
            }
        }
        assert forall|t: TaskView| #[trigger] new_tasks.contains(t) <==> t == new_task
            || old_tasks.contains(t) by {
            if new_tasks.contains(t) {
                let a = choose|a: int| 0 <= a < new_tasks.len() && new_tasks[a] == t;
                if a < at {
                    assert(old_tasks[a] == t);
                } else if a > at {
                    assert(old_tasks[a - 1] == t);
                }
            }
            if t == new_task {
                assert(new_tasks[at as int] == t);
            } else if old_tasks.contains(t) {
                let a = choose|a: int| 0 <= a < old_tasks.len() && old_tasks[a] == t;
                if a < at {
                    assert(new_tasks[a] == t);
                } else {
                    assert(new_tasks[a + 1] == t);
                }
            }
        }
    }
}

/// The tasks that the filter wants, as their last events left them, in the order
/// of a list.
pub fn list_latest(events: &Vec<TaskEvent>, filter: &TaskFilter) -> (r: Vec<Task>)
    ensures
        is_listing(event_views(events@), filter@, task_views(r@)),
{
    let ghost s = event_views(events@);
    let ghost f = filter@;
    let mut seen: HashSet<TaskId> = HashSet::new();
    let mut out: Vec<Task> = Vec::new();
    let mut i: usize = events.len();
    assert(task_views(out@) =~= Seq::<TaskView>::empty());
    while 0 < i
        invariant
            i <= events.len(),
            s == event_views(events@),
            f == filter@,
            forall|id: TaskId| #[trigger]
                seen@.contains(id) <==> exists|j: int| i <= j < s.len() && (#[trigger] s[j]).task_id == id,
            in_list_order(task_views(out@)),
            forall|t: TaskView| #[trigger]
                task_views(out@).contains(t) <==> exists|j: int|
                    i <= j && #[trigger] wanted(s, f, j) && t == s[j].task(),
        decreases i,
    {
        let ghost seen_before = seen@;
        let ghost listed = task_views(out@);
        let ghost from = i as int;
        i = i - 1;
        let event = &events[i];
        assert(s[i as int] == event@);
        let first: bool = !seen.contains(&event.task_id);
        if first {
            seen.insert(event.task_id);
        }
        assert forall|id: TaskId| #[trigger] seen@.contains(id) <==> exists|j: int|
            i <= j < s.len() && (#[trigger] s[j]).task_id == id by {
            if seen@.contains(id) {
                if seen_before.contains(id) {
                    let j = choose|j: int| from <= j < s.len() && (#[trigger] s[j]).task_id == id;
                    assert(i <= j && s[j].task_id == id);
                } else {
                    assert(s[i as int].task_id == id);
                }
            }
            if exists|j: int| i <= j < s.len() && (#[trigger] s[j]).task_id == id {
                let j = choose|j: int| i <= j < s.len() && (#[trigger] s[j]).task_id == id;
                if j != i {
                    assert(seen_before.contains(id));
                }
            }
        }
        assert(first == latest_at(s, i as int)) by {
            if first {
                assert forall|j: int| i < j < s.len() implies (#[trigger] s[j]).task_id
                    != s[i as int].task_id by {
                    if s[j].task_id == s[i as int].task_id {
                        assert(seen_before.contains(s[i as int].task_id));
                    }
                }
            }
        }
        let mut keep: bool = false;
        if first {
            let task = event.task();
            if filter.matches(&task) {
                keep = true;
                assert forall|k: int| 0 <= k < listed.len() implies (#[trigger] listed[k]).id
                    != task@.id by {
                    assert(listed.contains(listed[k]));
                    let j = choose|j: int|
                        from <= j && #[trigger] wanted(s, f, j) && listed[k] == s[j].task();
                    assert(s[j].task_id != s[i as int].task_id);
                }
                insert_listed(&mut out, task);
            }
        }
        assert(keep == wanted(s, f, i as int));
        assert forall|t: TaskView| #[trigger] task_views(out@).contains(t) <==> exists|j: int|
            i <= j && #[trigger] wanted(s, f, j) && t == s[j].task() by {
            if task_views(out@).contains(t) {
                if listed.contains(t) {
                    let j = choose|j: int|
                        from <= j && #[trigger] wanted(s, f, j) && t == s[j].task();
                    assert(i <= j && wanted(s, f, j));
                } else {
                    assert(wanted(s, f, i as int) && t == s[i as int].task());
                }
            }
            if exists|j: int| i <= j && #[trigger] wanted(s, f, j) && t == s[j].task() {
                let j = choose|j: int| i <= j && #[trigger] wanted(s, f, j) && t == s[j].task();
                if j != i {
                    assert(from <= j);
                    assert(listed.contains(t));
                }
            }
        }
    }
    proof {
        let tasks = task_views(out@);
        assert forall|t: TaskView| #[trigger] tasks.contains(t) <==> wanted_task(s, f, t) by {
            if tasks.contains(t) {
                let j = choose|j: int| 0 <= j && #[trigger] wanted(s, f, j) && t == s[j].task();
                assert(wanted(s, f, j) && t == s[j].task());
            }
            if wanted_task(s, f, t) {
                let j = choose|j: int| wanted(s, f, j) && t == s[j].task();
                assert(0 <= j && wanted(s, f, j) && t == s[j].task());
            }
        }
    }
    out
}

} // verus!
