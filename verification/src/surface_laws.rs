//! What requests, queries, commands and rows carry, said of what they are made of.

use vstd::prelude::*;
use vstd::string::*;
use crate::api::{asked, present, query_filter, watch_start, QueryView, TasksView};
use crate::client::{collected_labels, create_request, edited, filter_query, get_request};
use crate::client::{is_success, label_list, list_request, refusal_text, task_url, tasks_url};
use crate::client::{update_request, written_labels, BodyView, Method, TargetView};
use crate::commands::{advanced, begun, pickable, CommandView, OutcomeView, StepView};
use crate::domain::{event_of, event_type_text, list_text, parsed_event_type, parsed_list};
use crate::domain::{parsed_state, state_text, unknown_event_type, unknown_list, unknown_state};
use crate::domain::{FilterView, TaskEventType, TaskId, TaskList, TaskState, TaskView};
use crate::errors::Fault;
use crate::ids::{hex_digit, hyphenated, nibble, uuid_reading};
use crate::labels::{is_label_map, keys_ascend, ordered_pairs, pair_map, LabelMap, LabelPair};
use crate::numbers::{decimal, parsed_integer};
use crate::rows::{labels_json, labels_reading, row_event, row_fault, row_values, RowView};
use crate::text::{is_first, join, lemma_split_at, split, trimmed};

verus! {

broadcast use vstd::string::group_string_axioms;

// --------------------------------------------------------------------- queries

/// The labels of a query are written between commas; an empty piece does not count.
pub proof fn lemma_query_pieces(a: Seq<char>, b: Seq<char>)
    requires
        !a.contains(','),
    ensures
        present(split(a, ',')) == if a.len() > 0 {
            seq![a]
        } else {
            Seq::<Seq<char>>::empty()
        },
        present(split(a + seq![','] + b, ',')) == present(split(a, ',')) + present(split(b, ',')),
{
    reveal(Seq::filter);
    let s = a + seq![','] + b;
    let n = a.len() as int;
    let p = |x: Seq<char>| x.len() > 0;
    assert(is_first(s, ',', n)) by {
        assert(s[n] == ',');
        assert forall|j: int| 0 <= j < n implies s[j] != ',' by {
            assert(s[j] == a[j]);
        }
    }
    lemma_split_at(s, ',', n);
    assert(s.take(n) =~= a);
    assert(s.skip(n + 1) =~= b);
    let one = seq![a];
    assert(split(a, ',') =~= one);
    assert(split(s, ',') =~= one + split(b, ','));
    Seq::filter_distributes_over_add(one, split(b, ','), p);
    assert(one.drop_last() =~= Seq::<Seq<char>>::empty());
    assert(one.drop_last().filter(p) =~= Seq::<Seq<char>>::empty());
    assert(one.filter(p) =~= if a.len() > 0 {
        seq![a]
    } else {
        Seq::<Seq<char>>::empty()
    });
}

/// The filter of a query has the list, the state and the labels that the query names,
/// and leaves open what it does not name. A name that there is not is refused, the
/// list's first, then the state's, then a label.
pub proof fn lemma_query_meaning(q: QueryView)
    ensures
        query_filter(q) matches Ok(f) ==> {
            &&& q.list_name is None ==> f.list is None
            &&& q.list_name matches Some(s) ==> f.list is Some && f.list == parsed_list(s)
            &&& q.state is None ==> f.state is None
            &&& q.state matches Some(s) ==> f.state is Some && f.state == parsed_state(s)
            &&& q.labels is None ==> f.labels == LabelMap::empty()
            &&& q.labels matches Some(s) ==> collected_labels(present(split(s, ','))) == Ok::<
                LabelMap,
                Seq<char>,
            >(f.labels)
        },
        ({
            let bad_list = q.list_name is Some && parsed_list(q.list_name->0) is None;
            let bad_state = q.state is Some && parsed_state(q.state->0) is None;
            let bad_labels = q.labels is Some && collected_labels(
                present(split(q.labels->0, ',')),
            ) is Err;
            &&& query_filter(q) is Ok <==> !bad_list && !bad_state && !bad_labels
            &&& bad_list ==> query_filter(q) == Err::<FilterView, Fault>(
                Fault::Validation(unknown_list(q.list_name->0)),
            )
            &&& !bad_list && bad_state ==> query_filter(q) == Err::<FilterView, Fault>(
                Fault::Validation(unknown_state(q.state->0)),
            )
            &&& !bad_list && !bad_state && bad_labels ==> query_filter(q) == Err::<
                FilterView,
                Fault,
            >(Fault::Validation(collected_labels(present(split(q.labels->0, ',')))->Err_0))
        }),
{
}

/// A query with `watch` asks for a watch from its revision, one without for a list;
/// a list cannot have a revision. Either way the filter is that of the query.
pub proof fn lemma_asked_meaning(q: QueryView)
    ensures
        query_filter(q) matches Err(e) ==> asked(q) == Err::<TasksView, Fault>(e),
        query_filter(q) matches Ok(f) ==> {
            &&& q.watch ==> asked(q) == Ok::<TasksView, Fault>(
                TasksView::Watch { revision: q.revision, filter: f },
            )
            &&& !q.watch && q.revision is None ==> asked(q) == Ok::<TasksView, Fault>(
                TasksView::List(f),
            )
            &&& !q.watch && q.revision is Some ==> asked(q) == Err::<TasksView, Fault>(
                Fault::Validation("revision requires watch=true"@),
            )
        },
{
}

/// A watch starts at the revision asked for, whatever the client has seen; else right
/// after what it has seen; else right after the current revision.
pub proof fn lemma_watch_start_meaning(r: i64, seen: Seq<u8>, other: Option<Seq<u8>>, current: i64)
    ensures
        watch_start(Some(r), other, current) == Ok::<i64, Fault>(r),
        parsed_integer(seen) is None ==> watch_start(None, Some(seen), current) == Err::<
            i64,
            Fault,
        >(Fault::Validation("Last-Event-ID must be an integer"@)),
        parsed_integer(seen) matches Some(n) ==> {
            &&& n < i64::MAX ==> watch_start(None, Some(seen), current) is Ok && watch_start(
                None,
                Some(seen),
                current,
            )->Ok_0 == n + 1
            &&& n == i64::MAX ==> watch_start(None, Some(seen), current) == Err::<i64, Fault>(
                Fault::Validation("Last-Event-ID is too large"@),
            )
        },
        current < i64::MAX ==> watch_start(None, None, current) is Ok && watch_start(
            None,
            None,
            current,
        )->Ok_0 == current + 1,
        current == i64::MAX ==> watch_start(None, None, current) == Err::<i64, Fault>(
            Fault::Database("current revision overflow"@),
        ),
{
}

// -------------------------------------------------------------------- requests

/// The addresses of the tasks and of one task.
pub proof fn lemma_addresses(base: Seq<char>, id: TaskId)
    ensures
        tasks_url(base) == base + "/api/v1/tasks"@,
        task_url(base, id) == base + "/api/v1/tasks/"@ + hyphenated(id),
{
    reveal_strlit("/api/v1");
    reveal_strlit("/tasks");
    reveal_strlit("/");
    reveal_strlit("/api/v1/tasks");
    reveal_strlit("/api/v1/tasks/");
    assert("/api/v1"@ + "/tasks"@ =~= "/api/v1/tasks"@);
    assert("/api/v1/tasks"@ + "/"@ =~= "/api/v1/tasks/"@);
    assert(tasks_url(base) =~= base + ("/api/v1"@ + "/tasks"@));
    assert(task_url(base, id) =~= base + ("/api/v1/tasks"@ + "/"@) + hyphenated(id));
}

/// What each request sends, and where: a creation the whole description, a list what
/// the filter asks for, an update the whole state that the task is to have.
pub proof fn lemma_requests(
    base: Seq<char>,
    id: TaskId,
    description: Seq<char>,
    f: FilterView,
    target: TargetView,
)
    ensures
        ({
            let r = create_request(base, description);
            &&& r.method == Method::Post
            &&& r.url == base + "/api/v1/tasks"@
            &&& r.query.len() == 0
            &&& r.body == BodyView::Create(description)
        }),
        ({
            let r = get_request(base, id);
            &&& r.method == Method::Get
            &&& r.url == base + "/api/v1/tasks/"@ + hyphenated(id)
            &&& r.query.len() == 0
            &&& r.body is Nothing
        }),
        ({
            let r = list_request(base, f);
            &&& r.method == Method::Get
            &&& r.url == base + "/api/v1/tasks"@
            &&& r.query == filter_query(f)
            &&& r.body is Nothing
        }),
        ({
            let r = update_request(base, id, target);
            &&& r.method == Method::Put
            &&& r.url == base + "/api/v1/tasks/"@ + hyphenated(id)
            &&& r.query.len() == 0
            &&& r.body == BodyView::Update(target)
        }),
{
    lemma_addresses(base, id);
}

/// A list request names the list, the state and the labels of the filter, each where
/// the filter gives it, and nothing else.
pub proof fn lemma_filter_parameters(f: FilterView, name: Seq<char>, value: Seq<char>)
    ensures
        filter_query(f).contains((name, value)) <==> {
            ||| f.list is Some && name == "list"@ && value == list_text(f.list->0)
            ||| f.state is Some && name == "state"@ && value == state_text(f.state->0)
            ||| f.labels != LabelMap::empty() && name == "labels"@ && value == label_list(f.labels)
        },
        filter_query(f).len() == (if f.list is Some {
            1int
        } else {
            0
        }) + (if f.state is Some {
            1int
        } else {
            0
        }) + (if f.labels != LabelMap::empty() {
            1int
        } else {
            0
        }),
{
    let q = filter_query(f);
    let a: int = if f.list is Some {
        1
    } else {
        0
    };
    let b: int = if f.state is Some {
        1
    } else {
        0
    };
    if f.list is Some {
        assert(q[0] == ("list"@, list_text(f.list->0)));
    }
    if f.state is Some {
        assert(q[a] == ("state"@, state_text(f.state->0)));
    }
    if f.labels != LabelMap::empty() {
        assert(q[a + b] == ("labels"@, label_list(f.labels)));
    }
}

/// Labels are written as `key:value`, every one of them, in ascending order of their
/// keys, with commas between them.
pub proof fn lemma_labels_written(m: LabelMap, i: int)
    requires
        is_label_map(m),
        0 <= i < ordered_pairs(m).len(),
    ensures
        keys_ascend(ordered_pairs(m)),
        pair_map(ordered_pairs(m)) == m,
        written_labels(ordered_pairs(m)).len() == ordered_pairs(m).len(),
        written_labels(ordered_pairs(m))[i] == ordered_pairs(m)[i].0 + ":"@ + ordered_pairs(m)[i].1,
        label_list(m) == join(written_labels(ordered_pairs(m)), ","@),
{
    let p = choose|p: Seq<LabelPair>| keys_ascend(p) && #[trigger] pair_map(p) == m;
    assert(keys_ascend(p) && pair_map(p) == m);
}

/// The edit of a task changes what it gives and nothing else: each label of the edit
/// is set, each other label of the task stays; the description stays unless the edit
/// has one. The request names the revision at which the task was read.
pub proof fn lemma_edit_meaning(
    t: TaskView,
    list: TaskList,
    state: TaskState,
    labels: LabelMap,
    description: Option<Seq<char>>,
    k: Seq<char>,
)
    ensures
        ({
            let r = edited(t, list, state, labels, description);
            &&& r.revision == t.revision
            &&& r.list == list
            &&& r.state == state
            &&& description matches Some(d) ==> r.description == d
            &&& description is None ==> r.description == t.description
            &&& labels.dom().contains(k) ==> r.labels.dom().contains(k) && r.labels[k] == labels[k]
            &&& !labels.dom().contains(k) && t.labels.dom().contains(k) ==> r.labels.dom().contains(
                k,
            ) && r.labels[k] == t.labels[k]
            &&& !labels.dom().contains(k) && !t.labels.dom().contains(k)
                ==> !r.labels.dom().contains(k)
        }),
{
}

/// The statuses of success are those from 200 to 299.
pub proof fn lemma_success_meaning(status: u16)
    ensures
        is_success(status) <==> status / 100 == 2,
{
}

/// What a client says of a refusal: the status, and then what the server reports, or
/// the trimmed body if it reports nothing.
pub proof fn lemma_refusal_meaning(status: Seq<char>, body: Seq<char>, m: Seq<char>)
    ensures
        refusal_text(status, body, Some(m)) == "server returned "@ + status + ": "@ + m,
        refusal_text(status, body, None) == "server returned "@ + status + ": "@ + trimmed(body),
{
}

// -------------------------------------------------------------------- commands

/// `add` creates a task of all its words, with single spaces between them, and
/// prints the task that the server answers with.
pub proof fn lemma_add_command(base: Seq<char>, words: Seq<Seq<char>>, interactive: bool, t: TaskView)
    ensures
        ({
            let first = begun(base, CommandView::Add { words }, interactive);
            let last = advanced(base, first.0, OutcomeView::Task(t));
            &&& first.1 matches StepView::Send(r) && r.method == Method::Post && r.body
                == BodyView::Create(join(words, " "@)) && r.url == base + "/api/v1/tasks"@
            &&& last.0 is Over
            &&& last.1 == StepView::Print(
                seq![
                    "captured #"@ + hyphenated(t.id) + " in "@ + list_text(t.list) + ": "@
                        + t.description,
                ],
            )
        }),
{
    lemma_addresses(base, 0);
}

/// `pick` with an identifier reads the task, asks that it be a doing next action with
/// all else as it was read, and prints the task that the server answers with.
pub proof fn lemma_pick_command(
    base: Seq<char>,
    id: TaskId,
    interactive: bool,
    t: TaskView,
    u: TaskView,
)
    ensures
        ({
            let first = begun(base, CommandView::Pick { chosen: Some(id) }, interactive);
            let second = advanced(base, first.0, OutcomeView::Task(t));
            let last = advanced(base, second.0, OutcomeView::Task(u));
            &&& first.1 matches StepView::Send(r) && r.method == Method::Get && r.url == base
                + "/api/v1/tasks/"@ + hyphenated(id)
            &&& second.1 matches StepView::Send(r) && r.method == Method::Put && r.url == base
                + "/api/v1/tasks/"@ + hyphenated(id) && r.body == BodyView::Update(
                TargetView {
                    revision: t.revision,
                    description: t.description,
                    list: TaskList::NextAction,
                    state: TaskState::Doing,
                    labels: t.labels,
                },
            )
            &&& last.0 is Over
            &&& last.1 == StepView::Print(
                seq!["doing #"@ + hyphenated(u.id) + ": "@ + u.description],
            )
        }),
{
    lemma_addresses(base, id);
    assert(t.labels.union_prefer_right(LabelMap::empty()) =~= t.labels);
}

/// `pick` without an identifier lists the pending next actions. If there is none it
/// says so. On a terminal one is selected, which is then picked as if by its
/// identifier; otherwise the command fails and names the identifiers.
pub proof fn lemma_pick_choice(base: Seq<char>, interactive: bool, tasks: Seq<TaskView>, i: usize)
    requires
        i < tasks.len(),
    ensures
        ({
            let first = begun(base, CommandView::Pick { chosen: None }, interactive);
            let listed = advanced(base, first.0, OutcomeView::Tasks(tasks));
            let empty = advanced(base, first.0, OutcomeView::Tasks(Seq::empty()));
            let picked = advanced(base, listed.0, OutcomeView::Selected(Some(i)));
            let left = advanced(base, listed.0, OutcomeView::Selected(None));
            &&& first.1 matches StepView::Send(r) && r.method == Method::Get && r.url == base
                + "/api/v1/tasks"@ && r.query == seq![
                ("list"@, "next-action"@),
                ("state"@, "pending"@),
            ]
            &&& empty.0 is Over
            &&& empty.1 == StepView::Print(seq!["no pending task in next-action"@])
            &&& interactive ==> listed.1 is Select
            &&& interactive ==> picked == begun(
                base,
                CommandView::Pick { chosen: Some(tasks[i as int].id) },
                interactive,
            )
            &&& interactive ==> left.0 is Over && left.1 == StepView::Print(
                seq!["no pending task in next-action"@],
            )
            &&& !interactive ==> listed.0 is Over && listed.1 == StepView::Fail(
                "pick needs a task ID when stdin is not a terminal; available IDs: "@ + join(
                    tasks.map_values(|t: TaskView| hyphenated(t.id)),
                    ", "@,
                ),
            )
        }),
{
    lemma_addresses(base, 0);
    assert(filter_query(pickable()) =~= seq![("list"@, "next-action"@), ("state"@, "pending"@)]);
}

/// `done` reads the task and, if it is a doing one, asks that it be archived as done:
/// with the labels given set and the others kept, and with the description given, or
/// else its own. It prints the task that the server answers with.
pub proof fn lemma_done_command(
    base: Seq<char>,
    id: TaskId,
    labels: Seq<Seq<char>>,
    description: Option<Seq<char>>,
    interactive: bool,
    t: TaskView,
    u: TaskView,
    k: Seq<char>,
)
    ensures
        ({
            let first = begun(base, CommandView::Done { id, labels, description }, interactive);
            let second = advanced(base, first.0, OutcomeView::Task(t));
            let last = advanced(base, second.0, OutcomeView::Task(u));
            &&& collected_labels(labels) matches Err(m) ==> first.0 is Over && first.1
                == StepView::Fail(m)
            &&& collected_labels(labels) matches Ok(l) ==> {
                &&& first.1 matches StepView::Send(r) && r.method == Method::Get && r.url == base
                    + "/api/v1/tasks/"@ + hyphenated(id)
                &&& t.state != TaskState::Doing ==> second.0 is Over && second.1 == StepView::Fail(
                    "'done' accepts only a doing task; task "@ + hyphenated(t.id) + " is "@
                        + list_text(t.list) + "/"@ + state_text(t.state),
                )
                &&& t.state == TaskState::Doing ==> {
                    &&& second.1 matches StepView::Send(r) && r.method == Method::Put && r.url
                        == base + "/api/v1/tasks/"@ + hyphenated(id) && r.body is Update && {
                        let b = r.body->Update_0;
                        &&& b.revision == t.revision
                        &&& b.list == TaskList::Archive
                        &&& b.state == TaskState::Done
                        &&& b.description == if description is Some {
                            description->0
                        } else {
                            t.description
                        }
                        &&& b.labels.dom().contains(k) <==> l.dom().contains(k)
                            || t.labels.dom().contains(k)
                        &&& l.dom().contains(k) ==> b.labels[k] == l[k]
                        &&& !l.dom().contains(k) && t.labels.dom().contains(k) ==> b.labels[k]
                            == t.labels[k]
                    }
                    &&& last.0 is Over
                    &&& last.1 == StepView::Print(
                        seq!["archived #"@ + hyphenated(u.id) + " as done: "@ + u.description],
                    )
                }
            }
        }),
{
    lemma_addresses(base, id);
}

/// `list` asks for the list, the state and the labels that it is given, and shows
/// every task of the answer, one by one and in order.
pub proof fn lemma_list_command(
    base: Seq<char>,
    list: TaskList,
    labels: Seq<Seq<char>>,
    state: Option<TaskState>,
    json: bool,
    interactive: bool,
    tasks: Seq<TaskView>,
    i: int,
)
    requires
        0 <= i < tasks.len(),
    ensures
        ({
            let first = begun(base, CommandView::List { list, labels, state, json }, interactive);
            let last = advanced(base, first.0, OutcomeView::Tasks(tasks));
            let empty = advanced(base, first.0, OutcomeView::Tasks(Seq::empty()));
            &&& collected_labels(labels) matches Err(m) ==> first.0 is Over && first.1
                == StepView::Fail(m)
            &&& collected_labels(labels) matches Ok(l) ==> {
                &&& first.1 matches StepView::Send(r) && r.method == Method::Get && r.url == base
                    + "/api/v1/tasks"@ && r.query == filter_query(
                    FilterView { list: Some(list), state, labels: l },
                )
                &&& last.0 is Over
                &&& json ==> last.1 == StepView::PrintJson(tasks)
                &&& json ==> empty.1 == StepView::PrintJson(Seq::empty())
                &&& !json ==> empty.1 == StepView::Print(seq!["no tasks"@])
                &&& !json ==> last.1 is Print && last.1->Print_0.len() == tasks.len()
                &&& !json ==> last.1->Print_0[i] == "#"@ + hyphenated(tasks[i].id) + " "@
                    + state_text(tasks[i].state) + " "@ + tasks[i].description
                    + if tasks[i].labels == LabelMap::empty() {
                    Seq::empty()
                } else {
                    " · ["@ + label_list(tasks[i].labels) + "]"@
                }
            }
        }),
{
    lemma_addresses(base, 0);
}

/// `process` and `review` need a terminal; at the end they say how many tasks were
/// dealt with.
pub proof fn lemma_session_commands(base: Seq<char>, n: usize)
    ensures
        ({
            let p = begun(base, CommandView::Process, true);
            let r = begun(base, CommandView::Review, true);
            &&& p.1 is Process
            &&& r.1 is Review
            &&& advanced(base, p.0, OutcomeView::Count(n)).1 == StepView::Print(
                seq!["processed "@ + decimal(n as int) + " inbox task(s)"@],
            )
            &&& advanced(base, r.0, OutcomeView::Count(n)).1 == StepView::Print(
                seq!["reviewed "@ + decimal(n as int) + " task(s)"@],
            )
            &&& begun(base, CommandView::Process, false).1 == StepView::Fail(
                "'"@ + "process"@ + "' requires an interactive terminal"@,
            )
            &&& begun(base, CommandView::Review, false).1 == StepView::Fail(
                "'"@ + "review"@ + "' requires an interactive terminal"@,
            )
        }),
{
}

// ------------------------------------------------------------------------ rows

/// A row stores every part of a change: the task after it, and every part of the task
/// before it if there was one.
pub proof fn lemma_row_meaning(
    kind: TaskEventType,
    after: TaskView,
    prev_revision: Option<i64>,
    before: Option<TaskView>,
)
    ensures
        ({
            let r = row_values(kind, after, prev_revision, before);
            &&& r.task_id == hyphenated(after.id)
            &&& r.prev_revision == prev_revision
            &&& r.event_type == event_type_text(kind)
            &&& r.description == after.description
            &&& r.list_name == list_text(after.list)
            &&& r.state == state_text(after.state)
            &&& r.labels == labels_json(ordered_pairs(after.labels))
            &&& r.created_at == after.created_at
            &&& r.updated_at == after.updated_at
            &&& before is None ==> r.prev_description is None && r.prev_list_name is None
                && r.prev_state is None && r.prev_labels is None && r.prev_updated_at is None
            &&& before matches Some(t) ==> r.prev_description == Some(t.description)
                && r.prev_list_name == Some(list_text(t.list)) && r.prev_state == Some(
                state_text(t.state),
            ) && r.prev_labels == Some(labels_json(ordered_pairs(t.labels))) && r.prev_updated_at
                == Some(t.updated_at)
        }),
{
}

/// The event of a change has every part of the task after it, and every part of the
/// task before it if there was one.
pub proof fn lemma_event_meaning(
    revision: i64,
    kind: TaskEventType,
    after: TaskView,
    prev_revision: Option<i64>,
    before: Option<TaskView>,
)
    ensures
        ({
            let e = event_of(revision, kind, after, prev_revision, before);
            &&& e.revision == revision
            &&& e.task_id == after.id
            &&& e.prev_revision == prev_revision
            &&& e.event_type == kind
            &&& e.description == after.description
            &&& e.list_name == after.list
            &&& e.state == after.state
            &&& e.labels == after.labels
            &&& e.created_at == after.created_at
            &&& e.updated_at == after.updated_at
            &&& before is None ==> e.prev_description is None && e.prev_list_name is None
                && e.prev_state is None && e.prev_labels is None && e.prev_updated_at is None
            &&& before matches Some(t) ==> e.prev_description == Some(t.description)
                && e.prev_list_name == Some(t.list) && e.prev_state == Some(t.state)
                && e.prev_labels == Some(t.labels) && e.prev_updated_at == Some(t.updated_at)
        }),
{
}

/// A row is read if each of its names and its labels can be, and the event then has
/// every part of the row; otherwise the first part that cannot be read is reported.
pub proof fn lemma_row_read(revision: i64, v: RowView)
    ensures
        row_fault(v) is None <==> {
            &&& uuid_reading(v.task_id) is Ok
            &&& parsed_event_type(v.event_type) is Some
            &&& parsed_list(v.list_name) is Some
            &&& parsed_state(v.state) is Some
            &&& labels_reading(v.labels) is Ok
            &&& v.prev_list_name is None || parsed_list(v.prev_list_name->0) is Some
            &&& v.prev_state is None || parsed_state(v.prev_state->0) is Some
            &&& v.prev_labels is None || labels_reading(v.prev_labels->0) is Ok
        },
        row_fault(v) is None ==> {
            let e = row_event(revision, v);
            &&& e.revision == revision
            &&& uuid_reading(v.task_id) == Ok::<TaskId, Seq<char>>(e.task_id)
            &&& e.prev_revision == v.prev_revision
            &&& Some(e.event_type) == parsed_event_type(v.event_type)
            &&& e.description == v.description
            &&& Some(e.list_name) == parsed_list(v.list_name)
            &&& Some(e.state) == parsed_state(v.state)
            &&& e.labels == pair_map(labels_reading(v.labels)->Ok_0)
            &&& e.created_at == v.created_at
            &&& e.updated_at == v.updated_at
            &&& e.prev_description == v.prev_description
            &&& e.prev_updated_at == v.prev_updated_at
            &&& v.prev_list_name is None <==> e.prev_list_name is None
            &&& v.prev_list_name matches Some(s) ==> e.prev_list_name == parsed_list(s)
            &&& v.prev_state is None <==> e.prev_state is None
            &&& v.prev_state matches Some(s) ==> e.prev_state == parsed_state(s)
            &&& v.prev_labels is None <==> e.prev_labels is None
            &&& v.prev_labels matches Some(s) ==> e.prev_labels == Some(
                pair_map(labels_reading(s)->Ok_0),
            )
        },
        uuid_reading(v.task_id) matches Err(m) ==> row_fault(v) == Some(m),
        uuid_reading(v.task_id) is Ok && parsed_event_type(v.event_type) is None ==> row_fault(v)
            == Some(unknown_event_type(v.event_type)),
        uuid_reading(v.task_id) is Ok && parsed_event_type(v.event_type) is Some && parsed_list(
            v.list_name,
        ) is None ==> row_fault(v) == Some(unknown_list(v.list_name)),
        uuid_reading(v.task_id) is Ok && parsed_event_type(v.event_type) is Some && parsed_list(
            v.list_name,
        ) is Some && parsed_state(v.state) is None ==> row_fault(v) == Some(
            unknown_state(v.state),
        ),
{
}

/// The text of an identifier: 36 characters, hyphens at the four places where the
/// groups end, and else the hexadecimal digits in order.
pub proof fn lemma_identifier_text(id: TaskId, i: int)
    requires
        0 <= i < 32,
    ensures
        hyphenated(id).len() == 36,
        hyphenated(id)[8] == '-' && hyphenated(id)[13] == '-' && hyphenated(id)[18] == '-'
            && hyphenated(id)[23] == '-',
        ({
            let at = if i < 8 {
                i
            } else if i < 12 {
                i + 1
            } else if i < 16 {
                i + 2
            } else if i < 20 {
                i + 3
            } else {
                i + 4
            };
            let n = nibble(id, i);
            &&& hyphenated(id)[at] == hex_digit(n)
            &&& 0 <= n < 10 ==> hyphenated(id)[at] as u32 == 48 + n
            &&& 10 <= n < 16 ==> hyphenated(id)[at] as u32 == 97 + n - 10
        }),
{
}

} // verus!
