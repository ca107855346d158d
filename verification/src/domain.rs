//! Tasks, their lists and states, the events that change them, and filters.

use vstd::prelude::*;
use vstd::string::*;
use crate::labels::{key_at, keys_ascend, lemma_pair_entry, pair_views, LabelMap, LabelPair};
use crate::labels::Labels;
use crate::text::{find_char, same_text, split_once, split_once_at, trim, trimmed};

verus! {

broadcast use vstd::string::group_string_axioms;

// ------------------------------------------------------------------- labels

/// Whether a text holds one of the characters that separate a key from a value.
pub open spec fn has_separator(s: Seq<char>) -> bool {
    s.contains(':') || s.contains('=')
}

/// The two sides of a written label: cut at the first `=`, or at the first `:`
/// if there is no `=`.
pub open spec fn label_sides(s: Seq<char>) -> Option<LabelPair> {
    match split_once(s, '=') {
        Some(p) => Some(p),
        None => split_once(s, ':'),
    }
}

/// What is said of a key with a separator in it.
pub open spec fn separator_in_key(key: Seq<char>) -> Seq<char> {
    "label key '"@ + key + "' must not contain ':' or '='"@
}

/// The label that a text writes, or what is wrong with it.
pub open spec fn parsed_label(s: Seq<char>) -> Result<LabelPair, Seq<char>> {
    match label_sides(s) {
        None => Err("invalid label '"@ + s + "'; expected key:value"@),
        Some(p) => {
            let key = trimmed(p.0);
            let value = trimmed(p.1);
            if key.len() == 0 || value.len() == 0 {
                Err("label key and value must not be empty"@)
            } else if has_separator(key) {
                Err(separator_in_key(key))
            } else {
                Ok((key, value))
            }
        },
    }
}

/// The view of what `parse_label` returns.
pub open spec fn label_result(r: Result<(String, String), String>) -> Result<
    LabelPair,
    Seq<char>,
> {
    match r {
        Ok(p) => Ok((p.0@, p.1@)),
        Err(e) => Err(e@),
    }
}

/// Whether a text holds `:` or `=`.
pub fn contains_separator(s: &str) -> (r: bool)
    ensures
        r == has_separator(s@),
{
    find_char(s, ':').is_some() || find_char(s, '=').is_some()
}

/// The message for a key with a separator in it.
pub fn separator_message(key: &str) -> (r: String)
    ensures
        r@ == separator_in_key(key@),
{
    let mut out: String = "label key '".to_owned();
    out.append(key);
    out.append("' must not contain ':' or '='");
    out
}

/// Reads a label written `key:value` or `key=value`.
pub fn parse_label(value: &str) -> (r: Result<(String, String), String>)
    ensures
        label_result(r) == parsed_label(value@),
{
    let sides = match split_once_at(value, '=') {
        Some(p) => Some(p),
        None => split_once_at(value, ':'),
    };
    match sides {
        None => {
            let mut out: String = "invalid label '".to_owned();
            out.append(value);
            out.append("'; expected key:value");
            Err(out)
        },
        Some(p) => {
            let key = trim(p.0);
            let text = trim(p.1);
            if key.is_empty() || text.is_empty() {
                return Err("label key and value must not be empty".to_owned());
            }
            if contains_separator(key) {
                return Err(separator_message(key));
            }
            Ok((key.to_owned(), text.to_owned()))
        },
    }
}

// ---------------------------------------------------------- lists and states

/// The list that a task is in.
#[derive(Debug, Clone, Copy, PartialEq, Eq, Structural)]
pub enum TaskList {
    Inbox,
    NextAction,
    WaitingFor,
    SomedayMaybe,
    Archive,
}

/// The name of a list.
pub open spec fn list_text(l: TaskList) -> Seq<char> {
    match l {
        TaskList::Inbox => "in"@,
        TaskList::NextAction => "next-action"@,
        TaskList::WaitingFor => "waiting-for"@,
        TaskList::SomedayMaybe => "someday-maybe"@,
        TaskList::Archive => "archive"@,
    }
}

/// The list that a text names, by its name or a short form of it.
pub open spec fn parsed_list(s: Seq<char>) -> Option<TaskList> {
    if s == "in"@ || s == "inbox"@ {
        Some(TaskList::Inbox)
    } else if s == "next-action"@ || s == "next"@ {
        Some(TaskList::NextAction)
    } else if s == "waiting-for"@ || s == "waiting"@ {
        Some(TaskList::WaitingFor)
    } else if s == "someday-maybe"@ || s == "someday"@ || s == "maybe"@ {
        Some(TaskList::SomedayMaybe)
    } else if s == "archive"@ {
        Some(TaskList::Archive)
    } else {
        None
    }
}

/// What is said of a text that names no list.
pub open spec fn unknown_list(s: Seq<char>) -> Seq<char> {
    "unknown list '"@ + s
        + "'; expected in, next-action, waiting-for, someday-maybe, or archive"@
}

impl TaskList {
    /// The lists that hold unfinished tasks.
    pub fn active() -> (r: [TaskList; 4])
        ensures
            r@ == seq![
                TaskList::Inbox,
                TaskList::NextAction,
                TaskList::WaitingFor,
                TaskList::SomedayMaybe,
            ],
    {
        let r = [
            TaskList::Inbox,
            TaskList::NextAction,
            TaskList::WaitingFor,
            TaskList::SomedayMaybe,
        ];
        assert(r@ =~= seq![
            TaskList::Inbox,
            TaskList::NextAction,
            TaskList::WaitingFor,
            TaskList::SomedayMaybe,
        ]);
        r
    }

    /// The name of the list.
    pub fn as_str(self) -> (r: &'static str)
        ensures
            r@ == list_text(self),
    {
        match self {
            TaskList::Inbox => "in",
            TaskList::NextAction => "next-action",
            TaskList::WaitingFor => "waiting-for",
            TaskList::SomedayMaybe => "someday-maybe",
            TaskList::Archive => "archive",
        }
    }

    /// The name of the list, as an owned string.
    pub fn to_string(&self) -> (r: String)
        ensures
            r@ == list_text(*self),
    {
        self.as_str().to_owned()
    }

    /// Reads the name of a list.
    pub fn parse_name(value: &str) -> (r: Result<TaskList, String>)
        ensures
            r matches Ok(l) ==> parsed_list(value@) == Some(l),
            r matches Err(m) ==> parsed_list(value@) is None && m@ == unknown_list(value@),
    {
        if same_text(value, "in") || same_text(value, "inbox") {
            Ok(TaskList::Inbox)
        } else if same_text(value, "next-action") || same_text(value, "next") {
            Ok(TaskList::NextAction)
        } else if same_text(value, "waiting-for") || same_text(value, "waiting") {
            Ok(TaskList::WaitingFor)
        } else if same_text(value, "someday-maybe") || same_text(value, "someday") || same_text(
            value,
            "maybe",
        ) {
            Ok(TaskList::SomedayMaybe)
        } else if same_text(value, "archive") {
            Ok(TaskList::Archive)
        } else {
            let mut out: String = "unknown list '".to_owned();
            out.append(value);
            out.append("'; expected in, next-action, waiting-for, someday-maybe, or archive");
            Err(out)
        }
    }
}

impl std::str::FromStr for TaskList {
    type Err = String;

    fn from_str(value: &str) -> (r: Result<TaskList, String>)
        ensures
            r matches Ok(l) ==> parsed_list(value@) == Some(l),
            r matches Err(m) ==> parsed_list(value@) is None && m@ == unknown_list(value@),
    {
        TaskList::parse_name(value)
    }
}

/// The state that a task is in.
#[derive(Debug, Clone, Copy, PartialEq, Eq, Structural)]
pub enum TaskState {
    Pending,
    Doing,
    Done,
    Trash,
}

/// The name of a state.
pub open spec fn state_text(s: TaskState) -> Seq<char> {
    match s {
        TaskState::Pending => "pending"@,
        TaskState::Doing => "doing"@,
        TaskState::Done => "done"@,
        TaskState::Trash => "trash"@,
    }
}

/// The state that a text names.
pub open spec fn parsed_state(s: Seq<char>) -> Option<TaskState> {
    if s == "pending"@ {
        Some(TaskState::Pending)
    } else if s == "doing"@ {
        Some(TaskState::Doing)
    } else if s == "done"@ {
        Some(TaskState::Done)
    } else if s == "trash"@ {
        Some(TaskState::Trash)
    } else {
        None
    }
}

/// What is said of a text that names no state.
pub open spec fn unknown_state(s: Seq<char>) -> Seq<char> {
    "unknown state '"@ + s + "'; expected pending, doing, done, or trash"@
}

impl TaskState {
    /// The name of the state.
    pub fn as_str(self) -> (r: &'static str)
        ensures
            r@ == state_text(self),
    {
        match self {
            TaskState::Pending => "pending",
            TaskState::Doing => "doing",
            TaskState::Done => "done",
            TaskState::Trash => "trash",
        }
    }

    /// The name of the state, as an owned string.
    pub fn to_string(&self) -> (r: String)
        ensures
            r@ == state_text(*self),
    {
        self.as_str().to_owned()
    }

    /// Reads the name of a state.
    pub fn parse_name(value: &str) -> (r: Result<TaskState, String>)
        ensures
            r matches Ok(s) ==> parsed_state(value@) == Some(s),
            r matches Err(m) ==> parsed_state(value@) is None && m@ == unknown_state(value@),
    {
        if same_text(value, "pending") {
            Ok(TaskState::Pending)
        } else if same_text(value, "doing") {
            Ok(TaskState::Doing)
        } else if same_text(value, "done") {
            Ok(TaskState::Done)
        } else if same_text(value, "trash") {
            Ok(TaskState::Trash)
        } else {
            let mut out: String = "unknown state '".to_owned();
            out.append(value);
            out.append("'; expected pending, doing, done, or trash");
            Err(out)
        }
    }
}

impl std::str::FromStr for TaskState {
    type Err = String;

    fn from_str(value: &str) -> (r: Result<TaskState, String>)
        ensures
            r matches Ok(s) ==> parsed_state(value@) == Some(s),
            r matches Err(m) ==> parsed_state(value@) is None && m@ == unknown_state(value@),
    {
        TaskState::parse_name(value)
    }
}

/// What an event did to its task.
#[derive(Debug, Clone, Copy, PartialEq, Eq, Structural)]
pub enum TaskEventType {
    Created,
    Updated,
}

/// The name of an event type.
pub open spec fn event_type_text(t: TaskEventType) -> Seq<char> {
    match t {
        TaskEventType::Created => "task.created"@,
        TaskEventType::Updated => "task.updated"@,
    }
}

/// The event type that a text names.
pub open spec fn parsed_event_type(s: Seq<char>) -> Option<TaskEventType> {
    if s == "task.created"@ {
        Some(TaskEventType::Created)
    } else if s == "task.updated"@ {
        Some(TaskEventType::Updated)
    } else {
        None
    }
}

/// What is said of a text that names no event type.
pub open spec fn unknown_event_type(s: Seq<char>) -> Seq<char> {
    "unknown task event type '"@ + s + "'"@
}

impl TaskEventType {
    /// The name of the event type.
    pub fn as_str(self) -> (r: &'static str)
        ensures
            r@ == event_type_text(self),
    {
        match self {
            TaskEventType::Created => "task.created",
            TaskEventType::Updated => "task.updated",
        }
    }

    /// Reads the name of an event type.
    pub fn parse_name(value: &str) -> (r: Result<TaskEventType, String>)
        ensures
            r matches Ok(t) ==> parsed_event_type(value@) == Some(t),
            r matches Err(m) ==> parsed_event_type(value@) is None && m@ == unknown_event_type(
                value@,
            ),
    {
        if same_text(value, "task.created") {
            Ok(TaskEventType::Created)
        } else if same_text(value, "task.updated") {
            Ok(TaskEventType::Updated)
        } else {
            let mut out: String = "unknown task event type '".to_owned();
            out.append(value);
            out.append("'");
            Err(out)
        }
    }
}

impl std::str::FromStr for TaskEventType {
    type Err = String;

    fn from_str(value: &str) -> (r: Result<TaskEventType, String>)
        ensures
            r matches Ok(t) ==> parsed_event_type(value@) == Some(t),
            r matches Err(m) ==> parsed_event_type(value@) is None && m@ == unknown_event_type(
                value@,
            ),
    {
        TaskEventType::parse_name(value)
    }
}

/// Every list, state and event type is read back from its own name.
pub proof fn lemma_names_read_back(l: TaskList, s: TaskState, t: TaskEventType)
    ensures
        parsed_list(list_text(l)) == Some(l),
        parsed_state(state_text(s)) == Some(s),
        parsed_event_type(event_type_text(t)) == Some(t),
{
    reveal_strlit("in");
    reveal_strlit("inbox");
    reveal_strlit("next-action");
    reveal_strlit("next");
    reveal_strlit("waiting-for");
    reveal_strlit("waiting");
    reveal_strlit("someday-maybe");
    reveal_strlit("someday");
    reveal_strlit("maybe");
    reveal_strlit("archive");
    reveal_strlit("pending");
    reveal_strlit("doing");
    reveal_strlit("done");
    reveal_strlit("trash");
    reveal_strlit("task.created");
    reveal_strlit("task.updated");
    assert("in"@.len() == 2 && "inbox"@.len() == 5 && "next-action"@.len() == 11);
    assert("next"@.len() == 4 && "waiting-for"@.len() == 11 && "waiting"@.len() == 7);
    assert("someday-maybe"@.len() == 13 && "someday"@.len() == 7 && "maybe"@.len() == 5);
    assert("archive"@.len() == 7);
    assert("waiting"@[0] == 'w' && "archive"@[0] == 'a' && "someday"@[0] == 's');
    assert("next-action"@[0] == 'n' && "waiting-for"@[0] == 'w');
    assert("pending"@.len() == 7 && "doing"@.len() == 5 && "done"@.len() == 4);
    assert("trash"@.len() == 5 && "doing"@[0] == 'd' && "trash"@[0] == 't');
    assert("task.created"@[5] == 'c' && "task.updated"@[5] == 'u');
}

// -------------------------------------------------------------------- times

/// A moment in UTC: whole seconds since the epoch, and nanoseconds within the
/// second.
#[derive(Debug, Clone, Copy, PartialEq, Eq, Structural)]
pub struct Timestamp {
    pub seconds: i64,
    pub nanos: u32,
}

/// Whether `a` is earlier than `b`.
pub open spec fn earlier(a: Timestamp, b: Timestamp) -> bool {
    a.seconds < b.seconds || (a.seconds == b.seconds && a.nanos < b.nanos)
}

/// The later of two moments.
pub open spec fn later_of(a: Timestamp, b: Timestamp) -> Timestamp {
    if earlier(a, b) {
        b
    } else {
        a
    }
}

impl Timestamp {
    /// Whether this moment is earlier than `other`.
    pub fn before(self, other: Timestamp) -> (r: bool)
        ensures
            r == earlier(self, other),
    {
        self.seconds < other.seconds || (self.seconds == other.seconds && self.nanos
            < other.nanos)
    }

    /// The later of two moments.
    pub fn max(self, other: Timestamp) -> (r: Timestamp)
        ensures
            r == later_of(self, other),
    {
        if self.before(other) {
            other
        } else {
            self
        }
    }
}

// -------------------------------------------------------------------- tasks

/// A task's identifier: the 128 bits of a UUID.
pub type TaskId = u128;

/// The server's part of a task.
#[derive(Debug, Clone, Copy, PartialEq, Eq, Structural)]
pub struct TaskMetadata {
    pub id: TaskId,
    /// Revision of the event that left the task in this state.
    pub revision: i64,
    pub created_at: Timestamp,
    pub updated_at: Timestamp,
}

/// A task as it stands after some event.
#[derive(Debug, PartialEq, Eq)]
pub struct Task {
    pub metadata: TaskMetadata,
    pub description: String,
    pub list: TaskList,
    pub state: TaskState,
    pub labels: Labels,
}

/// What a task is.
#[verifier::ext_equal]
pub struct TaskView {
    pub id: TaskId,
    pub revision: i64,
    pub created_at: Timestamp,
    pub updated_at: Timestamp,
    pub description: Seq<char>,
    pub list: TaskList,
    pub state: TaskState,
    pub labels: LabelMap,
}

impl View for Task {
    type V = TaskView;

    open spec fn view(&self) -> TaskView {
        TaskView {
            id: self.metadata.id,
            revision: self.metadata.revision,
            created_at: self.metadata.created_at,
            updated_at: self.metadata.updated_at,
            description: self.description@,
            list: self.list,
            state: self.state,
            labels: self.labels@,
        }
    }
}

impl Clone for Task {
    fn clone(&self) -> (r: Task)
        ensures
            r@ == self@,
    {
        Task {
            metadata: self.metadata,
            description: self.description.clone(),
            list: self.list,
            state: self.state,
            labels: self.labels.clone(),
        }
    }
}

/// The views of a list of tasks.
pub open spec fn task_views(v: Seq<Task>) -> Seq<TaskView> {
    v.map_values(|t: Task| t@)
}

/// The revision at which a list was read.
#[derive(Debug, Clone, Copy, PartialEq, Eq, Structural)]
pub struct TaskListMetadata {
    /// Global event revision at which the list snapshot was read.
    pub revision: i64,
}

/// The answer to a list request.
#[derive(Debug, PartialEq, Eq)]
pub struct TaskListResponse {
    pub metadata: TaskListMetadata,
    pub items: Vec<Task>,
}

/// What a client sends to create a task.
#[derive(Debug, PartialEq, Eq)]
pub struct CreateTaskRequest {
    pub description: String,
}

/// Changes that a client makes while it moves a task.
#[derive(Debug, PartialEq, Eq)]
pub struct TaskEdit {
    pub labels: Labels,
    pub description: Option<String>,
}

impl Default for TaskEdit {
    fn default() -> (r: TaskEdit)
        ensures
            r.labels@ == LabelMap::empty(),
            r.description is None,
    {
        TaskEdit { labels: Labels::new(), description: None }
    }
}

/// The revision that an update expects its task to have.
#[derive(Debug, Clone, Copy, PartialEq, Eq, Structural)]
pub struct UpdateTaskMetadata {
    pub revision: i64,
}

/// The complete state that a task is to have after an update.
#[derive(Debug, PartialEq, Eq)]
pub struct UpdateTaskRequest {
    pub metadata: UpdateTaskMetadata,
    pub description: String,
    pub list: TaskList,
    pub state: TaskState,
    pub labels: Labels,
}

// ------------------------------------------------------------------ filters

/// Which tasks are wanted: those that agree with every part that is given.
#[derive(Debug, PartialEq, Eq)]
pub struct TaskFilter {
    pub list: Option<TaskList>,
    pub state: Option<TaskState>,
    pub labels: Labels,
}

/// What a filter asks for.
#[verifier::ext_equal]
pub struct FilterView {
    pub list: Option<TaskList>,
    pub state: Option<TaskState>,
    pub labels: LabelMap,
}

impl View for TaskFilter {
    type V = FilterView;

    open spec fn view(&self) -> FilterView {
        FilterView { list: self.list, state: self.state, labels: self.labels@ }
    }
}

impl FilterView {
    /// Whether a task agrees with the filter: its list and state where they are
    /// given, and every label of the filter.
    pub open spec fn matches(self, t: TaskView) -> bool {
        &&& self.list is Some ==> t.list == self.list->0
        &&& self.state is Some ==> t.state == self.state->0
        &&& forall|k: Seq<char>| #[trigger]
            self.labels.dom().contains(k) ==> t.labels.dom().contains(k) && t.labels[k]
                == self.labels[k]
    }
}

impl Default for TaskFilter {
    fn default() -> (r: TaskFilter)
        ensures
            r@ == (FilterView { list: None, state: None, labels: LabelMap::empty() }),
    {
        TaskFilter { list: None, state: None, labels: Labels::new() }
    }
}

impl TaskFilter {
    /// Whether a task agrees with the filter.
    pub fn matches(&self, task: &Task) -> (r: bool)
        ensures
            r == self@.matches(task@),
    {
        if let Some(list) = self.list {
            if task.list != list {
                return false;
            }
        }
        if let Some(state) = self.state {
            if task.state != state {
                return false;
            }
        }
        let entries = self.labels.entries();
        let ghost p = self.labels.pairs();
        let mut i: usize = 0;
        while i < entries.len()
            invariant
                i <= entries.len(),
                p == self.labels.pairs(),
                p == pair_views(entries@),
                keys_ascend(p),
                self.list is Some ==> task.list == self.list->0,
                self.state is Some ==> task.state == self.state->0,
                forall|j: int|
                    0 <= j < i ==> task.labels@.dom().contains((#[trigger] p[j]).0)
                        && task.labels@[p[j].0] == p[j].1,
            decreases entries.len() - i,
        {
            assert(p[i as int] == (entries@[i as int].0@, entries@[i as int].1@));
            proof {
                lemma_pair_entry(p, i as int);
                assert(self@.labels.dom().contains(p[i as int].0));
            }
            match task.labels.get(entries[i].0.as_str()) {
                None => {
                    return false;
                },
                Some(v) => {
                    if !same_text(v, entries[i].1.as_str()) {
                        return false;
                    }
                },
            }
            i = i + 1;
        }
        assert forall|k: Seq<char>| #[trigger] self@.labels.dom().contains(k) implies task@.labels.dom().contains(
        k) && task@.labels[k] == self@.labels[k] by {
            let j = choose|j: int| key_at(p, k, j);
            assert(key_at(p, k, j));
            lemma_pair_entry(p, j);
        }
        true
    }
}

// ------------------------------------------------------------------- events

/// One entry of the event log: the task after the change, and what changed
/// before it.
#[derive(Debug, PartialEq, Eq)]
pub struct TaskEvent {
    pub revision: i64,
    pub task_id: TaskId,
    pub prev_revision: Option<i64>,
    pub event_type: TaskEventType,
    pub description: String,
    pub list_name: TaskList,
    pub state: TaskState,
    pub labels: Labels,
    pub created_at: Timestamp,
    pub updated_at: Timestamp,
    pub prev_description: Option<String>,
    pub prev_list_name: Option<TaskList>,
    pub prev_state: Option<TaskState>,
    pub prev_labels: Option<Labels>,
    pub prev_updated_at: Option<Timestamp>,
}

/// What an event is.
#[verifier::ext_equal]
pub struct EventView {
    pub revision: i64,
    pub task_id: TaskId,
    pub prev_revision: Option<i64>,
    pub event_type: TaskEventType,
    pub description: Seq<char>,
    pub list_name: TaskList,
    pub state: TaskState,
    pub labels: LabelMap,
    pub created_at: Timestamp,
    pub updated_at: Timestamp,
    pub prev_description: Option<Seq<char>>,
    pub prev_list_name: Option<TaskList>,
    pub prev_state: Option<TaskState>,
    pub prev_labels: Option<LabelMap>,
    pub prev_updated_at: Option<Timestamp>,
}

/// The view of an optional string.
pub open spec fn optional_text(o: Option<String>) -> Option<Seq<char>> {
    match o {
        Some(s) => Some(s@),
        None => None,
    }
}

/// The view of an optional set of labels.
pub open spec fn optional_labels(o: Option<Labels>) -> Option<LabelMap> {
    match o {
        Some(l) => Some(l@),
        None => None,
    }
}

/// The view of an optional task.
pub open spec fn optional_task(o: Option<Task>) -> Option<TaskView> {
    match o {
        Some(t) => Some(t@),
        None => None,
    }
}

impl View for TaskEvent {
    type V = EventView;

    open spec fn view(&self) -> EventView {
        EventView {
            revision: self.revision,
            task_id: self.task_id,
            prev_revision: self.prev_revision,
            event_type: self.event_type,
            description: self.description@,
            list_name: self.list_name,
            state: self.state,
            labels: self.labels@,
            created_at: self.created_at,
            updated_at: self.updated_at,
            prev_description: optional_text(self.prev_description),
            prev_list_name: self.prev_list_name,
            prev_state: self.prev_state,
            prev_labels: optional_labels(self.prev_labels),
            prev_updated_at: self.prev_updated_at,
        }
    }
}

impl EventView {
    /// The task after the event.
    pub open spec fn task(self) -> TaskView {
        TaskView {
            id: self.task_id,
            revision: self.revision,
            created_at: self.created_at,
            updated_at: self.updated_at,
            description: self.description,
            list: self.list_name,
            state: self.state,
            labels: self.labels,
        }
    }

    /// Whether every part of the task before the event is recorded.
    pub open spec fn has_previous(self) -> bool {
        &&& self.prev_revision is Some
        &&& self.prev_updated_at is Some
        &&& self.prev_description is Some
        &&& self.prev_list_name is Some
        &&& self.prev_state is Some
        &&& self.prev_labels is Some
    }

    /// The task before the event, from this event alone.
    pub open spec fn prev_task(self) -> Option<TaskView> {
        if self.has_previous() {
            Some(
                TaskView {
                    id: self.task_id,
                    revision: self.prev_revision->0,
                    created_at: self.created_at,
                    updated_at: self.prev_updated_at->0,
                    description: self.prev_description->0,
                    list: self.prev_list_name->0,
                    state: self.prev_state->0,
                    labels: self.prev_labels->0,
                },
            )
        } else {
            None
        }
    }
}

/// The event that records a change to `after`, from `before` if there was one.
pub open spec fn event_of(
    revision: i64,
    kind: TaskEventType,
    after: TaskView,
    prev_revision: Option<i64>,
    before: Option<TaskView>,
) -> EventView {
    EventView {
        revision,
        task_id: after.id,
        prev_revision,
        event_type: kind,
        description: after.description,
        list_name: after.list,
        state: after.state,
        labels: after.labels,
        created_at: after.created_at,
        updated_at: after.updated_at,
        prev_description: match before {
            Some(t) => Some(t.description),
            None => None,
        },
        prev_list_name: match before {
            Some(t) => Some(t.list),
            None => None,
        },
        prev_state: match before {
            Some(t) => Some(t.state),
            None => None,
        },
        prev_labels: match before {
            Some(t) => Some(t.labels),
            None => None,
        },
        prev_updated_at: match before {
            Some(t) => Some(t.updated_at),
            None => None,
        },
    }
}

fn clone_text(o: &Option<String>) -> (r: Option<String>)
    ensures
        optional_text(r) == optional_text(*o),
{
    match o {
        Some(s) => Some(s.clone()),
        None => None,
    }
}

fn clone_labels(o: &Option<Labels>) -> (r: Option<Labels>)
    ensures
        optional_labels(r) == optional_labels(*o),
{
    match o {
        Some(l) => Some(l.clone()),
        None => None,
    }
}

impl Clone for TaskEvent {
    fn clone(&self) -> (r: TaskEvent)
        ensures
            r@ == self@,
    {
        TaskEvent {
            revision: self.revision,
            task_id: self.task_id,
            prev_revision: self.prev_revision,
            event_type: self.event_type,
            description: self.description.clone(),
            list_name: self.list_name,
            state: self.state,
            labels: self.labels.clone(),
            created_at: self.created_at,
            updated_at: self.updated_at,
            prev_description: clone_text(&self.prev_description),
            prev_list_name: self.prev_list_name,
            prev_state: self.prev_state,
            prev_labels: clone_labels(&self.prev_labels),
            prev_updated_at: self.prev_updated_at,
        }
    }
}

impl TaskEvent {
    /// The task after the event.
    pub fn task(&self) -> (r: Task)
        ensures
            r@ == self@.task(),
    {
        Task {
            metadata: TaskMetadata {
                id: self.task_id,
                revision: self.revision,
                created_at: self.created_at,
                updated_at: self.updated_at,
            },
            description: self.description.clone(),
            list: self.list_name,
            state: self.state,
            labels: self.labels.clone(),
        }
    }

    /// The task before the event, where all of it is recorded.
    pub fn prev_task(&self) -> (r: Option<Task>)
        ensures
            optional_task(r) == self@.prev_task(),
    {
        match (
            self.prev_revision,
            self.prev_updated_at,
            &self.prev_description,
            self.prev_list_name,
            self.prev_state,
            &self.prev_labels,
        ) {
            (
                Some(revision),
                Some(updated_at),
                Some(description),
                Some(list),
                Some(state),
                Some(labels),
            ) => Some(
                Task {
                    metadata: TaskMetadata {
                        id: self.task_id,
                        revision,
                        created_at: self.created_at,
                        updated_at,
                    },
                    description: description.clone(),
                    list,
                    state,
                    labels: labels.clone(),
                },
            ),
            _ => None,
        }
    }
}

/// An event as watchers see it: the task on both sides of the change.
#[derive(Debug, PartialEq, Eq)]
pub struct TaskWatchEvent {
    pub event_type: TaskEventType,
    pub task: Task,
    pub prev_task: Option<Task>,
}

/// What a watch event is.
#[verifier::ext_equal]
pub struct WatchView {
    pub event_type: TaskEventType,
    pub task: TaskView,
    pub prev_task: Option<TaskView>,
}

impl View for TaskWatchEvent {
    type V = WatchView;

    open spec fn view(&self) -> WatchView {
        WatchView {
            event_type: self.event_type,
            task: self.task@,
            prev_task: optional_task(self.prev_task),
        }
    }
}

impl WatchView {
    /// Whether the task agrees with the filter on either side of the change.
    pub open spec fn matches_filter(self, f: FilterView) -> bool {
        f.matches(self.task) || (self.prev_task is Some && f.matches(self.prev_task->0))
    }
}

impl TaskWatchEvent {
    /// Whether the task agrees with the filter on either side of the change.
    pub fn matches_filter(&self, filter: &TaskFilter) -> (r: bool)
        ensures
            r == self@.matches_filter(filter@),
    {
        if filter.matches(&self.task) {
            return true;
        }
        match &self.prev_task {
            Some(task) => filter.matches(task),
            None => false,
        }
    }
}

/// The views of a list of events.
pub open spec fn event_views(v: Seq<TaskEvent>) -> Seq<EventView> {
    v.map_values(|e: TaskEvent| e@)
}

/// The views of a list of watch events.
pub open spec fn watch_views(v: Seq<TaskWatchEvent>) -> Seq<WatchView> {
    v.map_values(|e: TaskWatchEvent| e@)
}

} // verus!
