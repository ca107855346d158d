//! Events as rows of text and numbers, the form in which they are stored.

use vstd::prelude::*;
use vstd::string::*;
use crate::compaction::Stamp;
use crate::domain::{event_of, event_type_text, lemma_names_read_back, list_text, optional_text};
use crate::domain::{parsed_event_type, parsed_list, parsed_state, state_text};
use crate::domain::{unknown_event_type, unknown_list, unknown_state};
use crate::domain::{EventView, Task, TaskEvent, TaskEventType, TaskList, TaskState, TaskView};
use crate::domain::{TaskId, Timestamp};
use crate::errors::{Fault, StoreError};
use crate::ids::{hyphenated, parse_uuid, uuid_reading, uuid_text};
use crate::labels::{is_label_map, keys_ascend, lemma_pair_entry, ordered_pairs, pair_map};
use crate::labels::{pair_views, LabelMap, LabelPair, Labels};

verus! {

broadcast use vstd::string::group_string_axioms;

// ------------------------------------------------------------ labels as JSON

/// The text that `serde_json::to_string` writes for a map with these entries,
/// whose keys ascend.
pub uninterp spec fn labels_json(pairs: Seq<(Seq<char>, Seq<char>)>) -> Seq<char>;

/// What `serde_json::from_str` reads as a map from strings to strings: the
/// entries in key order, or the text of its error.
pub uninterp spec fn labels_reading(text: Seq<char>) -> Result<
    Seq<(Seq<char>, Seq<char>)>,
    Seq<char>,
>;

/// The JSON text of a set of labels.
pub open spec fn labels_text(m: LabelMap) -> Seq<char> {
    labels_json(ordered_pairs(m))
}

/// The view of what reading labels gives.
pub open spec fn pairs_result(r: Result<Vec<(String, String)>, String>) -> Result<
    Seq<LabelPair>,
    Seq<char>,
> {
    match r {
        Ok(v) => Ok(pair_views(v@)),
        Err(m) => Err(m@),
    }
}

/// `serde_json::to_string` on a `BTreeMap` of these entries: it succeeds, since
/// every key is a string, and its text is a function of the entries, which is `{}`
/// where there are none.
#[verifier::external_body]
fn write_labels(entries: &Vec<(String, String)>) -> (r: Result<String, String>)
    requires
        keys_ascend(pair_views(entries@)),
    ensures
        r is Ok && r->Ok_0@ == labels_json(pair_views(entries@)),
        entries@.len() == 0 ==> r->Ok_0@ == "{}"@,
{
    let map: std::collections::BTreeMap<&str, &str> = entries.iter().map(
        |e| (e.0.as_str(), e.1.as_str()),
    ).collect();
    serde_json::to_string(&map).map_err(|error| error.to_string())
}

/// `serde_json::from_str` to a `BTreeMap<String, String>`, handed out in key
/// order: a function of the text alone, which reads back what `write_labels`
/// wrote. What it makes of other texts is left to the name.
#[verifier::external_body]
fn read_labels(text: &str) -> (r: Result<Vec<(String, String)>, String>)
    ensures
        pairs_result(r) == labels_reading(text@),
        r is Ok ==> keys_ascend(pair_views(r->Ok_0@)),
        forall|p: Seq<LabelPair>|
            keys_ascend(p) && text@ == #[trigger] labels_json(p) ==> pairs_result(r) is Ok
                && pairs_result(r)->Ok_0 == p,
{
    match serde_json::from_str::<std::collections::BTreeMap<String, String>>(text) {
        Ok(map) => Ok(map.into_iter().collect()),
        Err(error) => Err(error.to_string()),
    }
}

// --------------------------------------------------------------------- rows

/// What a row holds besides its revision.
#[derive(Debug, PartialEq, Eq)]
pub struct NewTaskEventRow {
    pub task_id: String,
    pub prev_revision: Option<i64>,
    pub event_type: String,
    pub description: String,
    pub list_name: String,
    pub state: String,
    pub labels: String,
    pub created_at: Timestamp,
    pub updated_at: Timestamp,
    pub prev_description: Option<String>,
    pub prev_list_name: Option<String>,
    pub prev_state: Option<String>,
    pub prev_labels: Option<String>,
    pub prev_updated_at: Option<Timestamp>,
}

/// A stored row.
#[derive(Debug, PartialEq, Eq)]
pub struct TaskEventRow {
    pub revision: i64,
    pub values: NewTaskEventRow,
}

/// What the values of a row are.
#[verifier::ext_equal]
pub struct RowView {
    pub task_id: Seq<char>,
    pub prev_revision: Option<i64>,
    pub event_type: Seq<char>,
    pub description: Seq<char>,
    pub list_name: Seq<char>,
    pub state: Seq<char>,
    pub labels: Seq<char>,
    pub created_at: Timestamp,
    pub updated_at: Timestamp,
    pub prev_description: Option<Seq<char>>,
    pub prev_list_name: Option<Seq<char>>,
    pub prev_state: Option<Seq<char>>,
    pub prev_labels: Option<Seq<char>>,
    pub prev_updated_at: Option<Timestamp>,
}

impl View for NewTaskEventRow {
    type V = RowView;

    open spec fn view(&self) -> RowView {
        RowView {
            task_id: self.task_id@,
            prev_revision: self.prev_revision,
            event_type: self.event_type@,
            description: self.description@,
            list_name: self.list_name@,
            state: self.state@,
            labels: self.labels@,
            created_at: self.created_at,
            updated_at: self.updated_at,
            prev_description: optional_text(self.prev_description),
            prev_list_name: optional_text(self.prev_list_name),
            prev_state: optional_text(self.prev_state),
            prev_labels: optional_text(self.prev_labels),
            prev_updated_at: self.prev_updated_at,
        }
    }
}

/// The values that are stored for a change to `after`, from `before` if there
/// was one.
pub open spec fn row_values(
    kind: TaskEventType,
    after: TaskView,
    prev_revision: Option<i64>,
    before: Option<TaskView>,
) -> RowView {
    RowView {
        task_id: hyphenated(after.id),
        prev_revision,
        event_type: event_type_text(kind),
        description: after.description,
        list_name: list_text(after.list),
        state: state_text(after.state),
        labels: labels_text(after.labels),
        created_at: after.created_at,
        updated_at: after.updated_at,
        prev_description: match before {
            Some(t) => Some(t.description),
            None => None,
        },
        prev_list_name: match before {
            Some(t) => Some(list_text(t.list)),
            None => None,
        },
        prev_state: match before {
            Some(t) => Some(state_text(t.state)),
            None => None,
        },
        prev_labels: match before {
            Some(t) => Some(labels_text(t.labels)),
            None => None,
        },
        prev_updated_at: match before {
            Some(t) => Some(t.updated_at),
            None => None,
        },
    }
}

/// Whether the labels on both sides of a change can be written down.
pub open spec fn labels_writable(after: TaskView, before: Option<TaskView>) -> bool {
    is_label_map(after.labels) && (before is Some ==> is_label_map(before->0.labels))
}

/// What is wrong with a row, of its parts in this order: the identifier, the
/// event type, the list, the state, the labels, and the same three of the task
/// before the change.
pub open spec fn row_fault(v: RowView) -> Option<Seq<char>> {
    if uuid_reading(v.task_id) is Err {
        Some(uuid_reading(v.task_id)->Err_0)
    } else if parsed_event_type(v.event_type) is None {
        Some(unknown_event_type(v.event_type))
    } else if parsed_list(v.list_name) is None {
        Some(unknown_list(v.list_name))
    } else if parsed_state(v.state) is None {
        Some(unknown_state(v.state))
    } else if labels_reading(v.labels) is Err {
        Some(labels_reading(v.labels)->Err_0)
    } else if v.prev_list_name is Some && parsed_list(v.prev_list_name->0) is None {
        Some(unknown_list(v.prev_list_name->0))
    } else if v.prev_state is Some && parsed_state(v.prev_state->0) is None {
        Some(unknown_state(v.prev_state->0))
    } else if v.prev_labels is Some && labels_reading(v.prev_labels->0) is Err {
        Some(labels_reading(v.prev_labels->0)->Err_0)
    } else {
        None
    }
}

/// The event that a row without fault records.
pub open spec fn row_event(revision: i64, v: RowView) -> EventView {
    EventView {
        revision,
        task_id: uuid_reading(v.task_id)->Ok_0,
        prev_revision: v.prev_revision,
        event_type: parsed_event_type(v.event_type)->0,
        description: v.description,
        list_name: parsed_list(v.list_name)->0,
        state: parsed_state(v.state)->0,
        labels: pair_map(labels_reading(v.labels)->Ok_0),
        created_at: v.created_at,
        updated_at: v.updated_at,
        prev_description: v.prev_description,
        prev_list_name: match v.prev_list_name {
            Some(s) => parsed_list(s),
            None => None,
        },
        prev_state: match v.prev_state {
            Some(s) => parsed_state(s),
            None => None,
        },
        prev_labels: match v.prev_labels {
            Some(s) => Some(pair_map(labels_reading(s)->Ok_0)),
            None => None,
        },
        prev_updated_at: v.prev_updated_at,
    }
}

fn labels_of(text: &str) -> (r: Result<Labels, StoreError>)
    ensures
        labels_reading(text@) is Ok <==> r is Ok,
        r is Ok ==> r->Ok_0@ == pair_map(labels_reading(text@)->Ok_0),
        r is Err ==> r->Err_0@ == Fault::Database(labels_reading(text@)->Err_0),
        forall|m: LabelMap|
            is_label_map(m) && text@ == #[trigger] labels_text(m) ==> r is Ok && r->Ok_0@ == m,
{
    let read = read_labels(text);
    proof {
        assert forall|m: LabelMap| is_label_map(m) && text@ == #[trigger] labels_text(m) implies {
            read is Ok && pair_map(pair_views(read->Ok_0@)) == m
        } by {
            let p = ordered_pairs(m);
            assert(keys_ascend(p) && pair_map(p) == m);
            assert(text@ == labels_json(p));
        }
    }
    match read {
        Ok(entries) => Ok(Labels::from_ordered(entries)),
        Err(m) => Err(StoreError::Database(m)),
    }
}

fn text_of_labels(labels: &Labels) -> (r: Result<String, StoreError>)
    ensures
        r is Ok && r->Ok_0@ == labels_text(labels@),
        labels@ == LabelMap::empty() ==> r->Ok_0@ == "{}"@,
{
    let entries = labels.entries();
    proof {
        if labels.pairs().len() > 0 {
            lemma_pair_entry(labels.pairs(), 0);
        }
    }
    match write_labels(entries) {
        Ok(s) => Ok(s),
        Err(m) => Err(StoreError::Database(m)),
    }
}

/// The values to store for a change to `after`, from `before` if there was one.
/// Where there are no labels, the text `{}` is stored for them.
pub fn new_event_row(
    event_type: TaskEventType,
    after: &Task,
    prev_revision: Option<i64>,
    before: Option<&Task>,
) -> (r: Result<NewTaskEventRow, StoreError>)
    ensures
        r is Ok,
        before is None ==> r->Ok_0@ == row_values(event_type, after@, prev_revision, None),
        before is Some ==> r->Ok_0@ == row_values(
            event_type,
            after@,
            prev_revision,
            Some(before->0@),
        ),
        after@.labels == LabelMap::empty() ==> r->Ok_0.labels@ == "{}"@,
{
    let labels = match text_of_labels(&after.labels) {
        Ok(s) => s,
        Err(e) => {
            return Err(e);
        },
    };
    let mut row = NewTaskEventRow {
        task_id: uuid_text(after.metadata.id),
        prev_revision,
        event_type: event_type.as_str().to_owned(),
        description: after.description.clone(),
        list_name: after.list.as_str().to_owned(),
        state: after.state.as_str().to_owned(),
        labels,
        created_at: after.metadata.created_at,
        updated_at: after.metadata.updated_at,
        prev_description: None,
        prev_list_name: None,
        prev_state: None,
        prev_labels: None,
        prev_updated_at: None,
    };
    if let Some(task) = before {
        let prev_labels = match text_of_labels(&task.labels) {
            Ok(s) => s,
            Err(e) => {
                return Err(e);
            },
        };
        row.prev_description = Some(task.description.clone());
        row.prev_list_name = Some(task.list.as_str().to_owned());
        row.prev_state = Some(task.state.as_str().to_owned());
        row.prev_labels = Some(prev_labels);
        row.prev_updated_at = Some(task.metadata.updated_at);
    }
    Ok(row)
}

fn database<T>(r: Result<T, String>) -> (q: Result<T, StoreError>)
    ensures
        r is Ok ==> q is Ok && q->Ok_0 == r->Ok_0,
        r is Err ==> q is Err && q->Err_0@ == Fault::Database(r->Err_0@),
{
    match r {
        Ok(v) => Ok(v),
        Err(m) => Err(StoreError::Database(m)),
    }
}

/// The text under which the events of a task are stored.
pub fn task_key(id: TaskId) -> (r: String)
    ensures
        r@ == hyphenated(id),
{
    uuid_text(id)
}

/// The stamp of a stored event, from its revision and the text of its task. A text
/// that `task_key` wrote gives that task.
pub fn read_stamp(revision: i64, key: &str) -> (r: Result<Stamp, StoreError>)
    ensures
        r is Ok <==> uuid_reading(key@) is Ok,
        r is Ok ==> r->Ok_0 == (revision, uuid_reading(key@)->Ok_0),
        r is Err ==> r->Err_0@ == Fault::Database(uuid_reading(key@)->Err_0),
        forall|id: TaskId| key@ == #[trigger] hyphenated(id) ==> r is Ok && r->Ok_0 == (
            revision,
            id,
        ),
{
    match database(parse_uuid(key)) {
        Ok(id) => Ok((revision, id)),
        Err(e) => Err(e),
    }
}

impl TaskEvent {
    /// The event that a stored row records. A row that was written for a change
    /// records that change.
    pub fn try_from(row: TaskEventRow) -> (r: Result<TaskEvent, StoreError>)
        ensures
            r is Ok <==> row_fault(row.values@) is None,
            r is Ok ==> r->Ok_0@ == row_event(row.revision, row.values@),
            r is Err ==> r->Err_0@ == Fault::Database(row_fault(row.values@)->0),
            forall|
                kind: TaskEventType,
                after: TaskView,
                prev_revision: Option<i64>,
                before: Option<TaskView>,
            |
                row.values@ == #[trigger] row_values(kind, after, prev_revision, before)
                    && labels_writable(after, before) ==> r is Ok && r->Ok_0@ == event_of(
                    row.revision,
                    kind,
                    after,
                    prev_revision,
                    before,
                ),
    {
        let v = row.values;
        let task_id = match database(parse_uuid(v.task_id.as_str())) {
            Ok(id) => id,
            Err(e) => {
                return Err(e);
            },
        };
        proof {
            assert forall|
                kind: TaskEventType,
                after: TaskView,
                prev_revision: Option<i64>,
                before: Option<TaskView>,
            |
                v@ == #[trigger] row_values(kind, after, prev_revision, before) implies {
                &&& task_id == after.id
                &&& parsed_event_type(v@.event_type) == Some(kind)
                &&& parsed_list(v@.list_name) == Some(after.list)
                &&& parsed_state(v@.state) == Some(after.state)
                &&& before is Some ==> parsed_list(v@.prev_list_name->0) == Some(before->0.list)
                &&& before is Some ==> parsed_state(v@.prev_state->0) == Some(before->0.state)
            } by {
                lemma_names_read_back(after.list, after.state, kind);
                if before is Some {
                    lemma_names_read_back(before->0.list, before->0.state, kind);
                }
                assert(v.task_id@ == hyphenated(after.id));
            }
        }
        let event_type = match database(TaskEventType::parse_name(v.event_type.as_str())) {
            Ok(t) => t,
            Err(e) => {
                return Err(e);
            },
        };
        let list_name = match database(TaskList::parse_name(v.list_name.as_str())) {
            Ok(l) => l,
            Err(e) => {
                return Err(e);
            },
        };
        let state = match database(TaskState::parse_name(v.state.as_str())) {
            Ok(s) => s,
            Err(e) => {
                return Err(e);
            },
        };
        let labels = match labels_of(v.labels.as_str()) {
            Ok(l) => l,
            Err(e) => {
                return Err(e);
            },
        };
        let prev_list_name = match &v.prev_list_name {
            None => None,
            Some(text) => match database(TaskList::parse_name(text.as_str())) {
                Ok(l) => Some(l),
                Err(e) => {
                    return Err(e);
                },
            },
        };
        let prev_state = match &v.prev_state {
            None => None,
            Some(text) => match database(TaskState::parse_name(text.as_str())) {
                Ok(s) => Some(s),
                Err(e) => {
                    return Err(e);
                },
            },
        };
        let prev_labels = match &v.prev_labels {
            None => None,
            Some(text) => match labels_of(text.as_str()) {
                Ok(l) => Some(l),
                Err(e) => {
                    return Err(e);
                },
            },
        };
        let event = TaskEvent {
            revision: row.revision,
            task_id,
            prev_revision: v.prev_revision,
            event_type,
            description: v.description,
            list_name,
            state,
            labels,
            created_at: v.created_at,
            updated_at: v.updated_at,
            prev_description: v.prev_description,
            prev_list_name,
            prev_state,
            prev_labels,
            prev_updated_at: v.prev_updated_at,
        };
        Ok(event)
    }
}

} // verus!
