//! What a client sends to the server, and what it makes of the answers.

use vstd::prelude::*;
use vstd::string::*;
use crate::domain::{list_text, optional_text, parse_label, parsed_label, state_text};
use crate::domain::{CreateTaskRequest, FilterView, Task, TaskEdit, TaskFilter, TaskId, TaskList};
use crate::domain::{TaskState, TaskView, UpdateTaskMetadata, UpdateTaskRequest};
use crate::ids::{hyphenated, uuid_text};
use crate::labels::{ordered_pairs, pair_views, LabelMap, LabelPair};
use crate::labels::Labels;
use crate::text::{join, join_all, starts_with, texts, trim, trim_end_char, trim_end_matches};
use crate::text::trimmed;

verus! {

broadcast use vstd::string::group_string_axioms;

// -------------------------------------------------------------------- labels

/// The labels that a list of texts writes, a later one in place of an earlier one
/// with the same key; or what is wrong with the first faulty one.
pub open spec fn collected_labels(pairs: Seq<Seq<char>>) -> Result<LabelMap, Seq<char>>
    decreases pairs.len(),
{
    if pairs.len() == 0 {
        Ok(LabelMap::empty())
    } else {
        match collected_labels(pairs.drop_last()) {
            Err(e) => Err(e),
            Ok(m) => match parsed_label(pairs.last()) {
                Err(e) => Err(e),
                Ok(p) => Ok(m.insert(p.0, p.1)),
            },
        }
    }
}

/// The view of what collecting labels returns.
pub open spec fn labels_result(r: Result<Labels, String>) -> Result<LabelMap, Seq<char>> {
    match r {
        Ok(l) => Ok(l@),
        Err(e) => Err(e@),
    }
}

proof fn lemma_fault_stays(pairs: Seq<Seq<char>>, i: int)
    requires
        0 <= i <= pairs.len(),
        collected_labels(pairs.take(i)) is Err,
    ensures
        collected_labels(pairs) == collected_labels(pairs.take(i)),
    decreases pairs.len() - i,
{
    if i == pairs.len() {
        assert(pairs.take(i) =~= pairs);
    } else {
        assert(pairs.take(i + 1).drop_last() =~= pairs.take(i));
        lemma_fault_stays(pairs, i + 1);
    }
}

/// Reads labels, each written as `key:value` or `key=value`.
pub fn labels_from_pairs(pairs: &Vec<String>) -> (r: Result<Labels, String>)
    ensures
        labels_result(r) == collected_labels(texts(pairs@)),
{
    let ghost t = texts(pairs@);
    let mut labels = Labels::new();
    let mut i: usize = 0;
    assert(collected_labels(t.take(0)) == Ok::<LabelMap, Seq<char>>(LabelMap::empty()));
    while i < pairs.len()
        invariant
            i <= pairs.len(),
            t == texts(pairs@),
            collected_labels(t.take(i as int)) == Ok::<LabelMap, Seq<char>>(labels@),
        decreases pairs.len() - i,
    {
        assert(t.take(i + 1).drop_last() =~= t.take(i as int));
        assert(t.take(i + 1).last() == pairs@[i as int]@);
        match parse_label(pairs[i].as_str()) {
            Err(e) => {
                proof {
                    lemma_fault_stays(t, i + 1);
                }
                return Err(e);
            },
            Ok(p) => {
                labels.insert(p.0, p.1);
            },
        }
        i = i + 1;
    }
    assert(t.take(i as int) =~= t);
    Ok(labels)
}

/// The texts `key:value` of the labels.
pub open spec fn written_labels(p: Seq<LabelPair>) -> Seq<Seq<char>> {
    p.map_values(|e: LabelPair| e.0 + ":"@ + e.1)
}

/// The labels as `key:value`, separated by commas, in key order.
pub open spec fn label_list(m: LabelMap) -> Seq<char> {
    join(written_labels(ordered_pairs(m)), ","@)
}

/// Writes the labels as `key:value`, separated by commas, in key order.
pub fn write_label_list(labels: &Labels) -> (r: String)
    ensures
        r@ == label_list(labels@),
{
    let entries = labels.entries();
    let ghost p = labels.pairs();
    let mut parts: Vec<String> = Vec::new();
    let mut i: usize = 0;
    assert(texts(parts@) =~= written_labels(p.take(0)));
    while i < entries.len()
        invariant
            i <= entries.len(),
            p == pair_views(entries@),
            texts(parts@) == written_labels(p.take(i as int)),
        decreases entries.len() - i,
    {
        let ghost before = parts@;
        let mut part: String = entries[i].0.clone();
        part.append(":");
        part.append(entries[i].1.as_str());
        assert(p[i as int] == (entries@[i as int].0@, entries@[i as int].1@));
        parts.push(part);
        assert(texts(parts@) =~= texts(before).push(part@));
        assert(written_labels(p.take(i + 1)) =~= written_labels(p.take(i as int)).push(part@));
        i = i + 1;
    }
    assert(p.take(i as int) =~= p);
    join_all(&parts, ",")
}

// ------------------------------------------------------------------ requests

/// The HTTP method of a request.
#[derive(Debug, Clone, Copy, PartialEq, Eq, Structural)]
pub enum Method {
    Get,
    Post,
    Put,
}

/// What a request carries.
#[derive(Debug, PartialEq, Eq)]
pub enum Body {
    Nothing,
    Create(CreateTaskRequest),
    Update(UpdateTaskRequest),
}

/// A request to the server.
#[derive(Debug, PartialEq, Eq)]
pub struct ApiRequest {
    pub method: Method,
    pub url: String,
    pub query: Vec<(String, String)>,
    pub body: Body,
}

/// The state that an update asks for, with the revision that it expects.
#[verifier::ext_equal]
pub struct TargetView {
    pub revision: i64,
    pub description: Seq<char>,
    pub list: TaskList,
    pub state: TaskState,
    pub labels: LabelMap,
}

impl View for UpdateTaskRequest {
    type V = TargetView;

    open spec fn view(&self) -> TargetView {
        TargetView {
            revision: self.metadata.revision,
            description: self.description@,
            list: self.list,
            state: self.state,
            labels: self.labels@,
        }
    }
}

/// What a request carries.
pub enum BodyView {
    Nothing,
    Create(Seq<char>),
    Update(TargetView),
}

impl View for Body {
    type V = BodyView;

    open spec fn view(&self) -> BodyView {
        match self {
            Body::Nothing => BodyView::Nothing,
            Body::Create(r) => BodyView::Create(r.description@),
            Body::Update(r) => BodyView::Update(r@),
        }
    }
}

/// What a request is.
#[verifier::ext_equal]
pub struct RequestView {
    pub method: Method,
    pub url: Seq<char>,
    pub query: Seq<(Seq<char>, Seq<char>)>,
    pub body: BodyView,
}

impl View for ApiRequest {
    type V = RequestView;

    open spec fn view(&self) -> RequestView {
        RequestView {
            method: self.method,
            url: self.url@,
            query: pair_views(self.query@),
            body: self.body@,
        }
    }
}

/// The address of the tasks.
pub open spec fn tasks_url(base: Seq<char>) -> Seq<char> {
    base + "/api/v1"@ + "/tasks"@
}

/// The address of one task.
pub open spec fn task_url(base: Seq<char>, id: TaskId) -> Seq<char> {
    tasks_url(base) + "/"@ + hyphenated(id)
}

/// The request that creates a task.
pub open spec fn create_request(base: Seq<char>, description: Seq<char>) -> RequestView {
    RequestView {
        method: Method::Post,
        url: tasks_url(base),
        query: Seq::empty(),
        body: BodyView::Create(description),
    }
}

/// The request that reads a task.
pub open spec fn get_request(base: Seq<char>, id: TaskId) -> RequestView {
    RequestView {
        method: Method::Get,
        url: task_url(base, id),
        query: Seq::empty(),
        body: BodyView::Nothing,
    }
}

/// The parameters that ask for what a filter wants: a part that is not given has
/// no parameter.
pub open spec fn filter_query(f: FilterView) -> Seq<(Seq<char>, Seq<char>)> {
    let none = Seq::<(Seq<char>, Seq<char>)>::empty();
    let list = match f.list {
        Some(l) => seq![("list"@, list_text(l))],
        None => none,
    };
    let state = match f.state {
        Some(s) => seq![("state"@, state_text(s))],
        None => none,
    };
    let labels = if f.labels == LabelMap::empty() {
        none
    } else {
        seq![("labels"@, label_list(f.labels))]
    };
    list + state + labels
}

/// The request that lists tasks.
pub open spec fn list_request(base: Seq<char>, f: FilterView) -> RequestView {
    RequestView {
        method: Method::Get,
        url: tasks_url(base),
        query: filter_query(f),
        body: BodyView::Nothing,
    }
}

/// The request that gives a task a state.
pub open spec fn update_request(base: Seq<char>, id: TaskId, target: TargetView) -> RequestView {
    RequestView {
        method: Method::Put,
        url: task_url(base, id),
        query: Seq::empty(),
        body: BodyView::Update(target),
    }
}

/// The state that a task is to have once it is moved and edited: what the edit
/// does not give stays, and its labels are added to those of the task.
pub open spec fn edited(
    current: TaskView,
    list: TaskList,
    state: TaskState,
    labels: LabelMap,
    description: Option<Seq<char>>,
) -> TargetView {
    TargetView {
        revision: current.revision,
        description: match description {
            Some(d) => d,
            None => current.description,
        },
        list,
        state,
        labels: current.labels.union_prefer_right(labels),
    }
}

/// A client of one server.
#[derive(Debug, PartialEq, Eq)]
pub struct ApiClient {
    base_url: String,
}

impl View for ApiClient {
    type V = Seq<char>;

    closed spec fn view(&self) -> Seq<char> {
        self.base_url@
    }
}

impl ApiClient {
    /// A client of the server at this address, without the slashes at its end.
    pub fn new(base_url: &str) -> (r: Result<ApiClient, String>)
        ensures
            r is Ok <==> "http://"@.is_prefix_of(trim_end_char(base_url@, '/')),
            r is Ok ==> r->Ok_0@ == trim_end_char(base_url@, '/'),
            r is Err ==> r->Err_0@ == "server URL must start with http://"@,
    {
        let base_url = trim_end_matches(base_url, '/').to_owned();
        if !starts_with(base_url.as_str(), "http://") {
            return Err("server URL must start with http://".to_owned());
        }
        Ok(ApiClient { base_url })
    }

    fn tasks_url(&self) -> (r: String)
        ensures
            r@ == tasks_url(self@),
    {
        let mut url: String = self.base_url.clone();
        url.append("/api/v1");
        url.append("/tasks");
        url
    }

    fn task_url(&self, id: TaskId) -> (r: String)
        ensures
            r@ == task_url(self@, id),
    {
        let mut url: String = self.tasks_url();
        url.append("/");
        url.append(uuid_text(id).as_str());
        url
    }

    /// Asks for a new task.
    pub fn create(&self, description: String) -> (r: ApiRequest)
        ensures
            r@ == create_request(self@, description@),
    {
        let r = ApiRequest {
            method: Method::Post,
            url: self.tasks_url(),
            query: Vec::new(),
            body: Body::Create(CreateTaskRequest { description }),
        };
        assert(r@.query =~= Seq::empty());
        r
    }

    /// Asks for a task.
    pub fn get(&self, id: TaskId) -> (r: ApiRequest)
        ensures
            r@ == get_request(self@, id),
    {
        let r = ApiRequest {
            method: Method::Get,
            url: self.task_url(id),
            query: Vec::new(),
            body: Body::Nothing,
        };
        assert(r@.query =~= Seq::empty());
        r
    }

    /// Asks for the tasks that a filter wants.
    pub fn list(&self, filter: &TaskFilter) -> (r: ApiRequest)
        ensures
            r@ == list_request(self@, filter@),
    {
        let mut query: Vec<(String, String)> = Vec::new();
        if let Some(list) = filter.list {
            query.push(("list".to_owned(), list.to_string()));
        }
        if let Some(state) = filter.state {
            query.push(("state".to_owned(), state.to_string()));
        }
        if !filter.labels.is_empty() {
            query.push(("labels".to_owned(), write_label_list(&filter.labels)));
        }
        assert(pair_views(query@) =~= filter_query(filter@));
        ApiRequest { method: Method::Get, url: self.tasks_url(), query, body: Body::Nothing }
    }

    /// Asks that a task be given a state.
    pub fn update(&self, id: TaskId, request: UpdateTaskRequest) -> (r: ApiRequest)
        ensures
            r@ == update_request(self@, id, request@),
    {
        let r = ApiRequest {
            method: Method::Put,
            url: self.task_url(id),
            query: Vec::new(),
            body: Body::Update(request),
        };
        assert(r@.query =~= Seq::empty());
        r
    }

    /// Asks that a task, which was just read, be moved and edited.
    pub fn update_state(
        &self,
        id: TaskId,
        current: Task,
        list: TaskList,
        state: TaskState,
        edit: TaskEdit,
    ) -> (r: ApiRequest)
        ensures
            r@ == update_request(
                self@,
                id,
                edited(
                    current@,
                    list,
                    state,
                    edit.labels@,
                    optional_text(edit.description),
                ),
            ),
    {
        let mut labels = current.labels;
        labels.extend(&edit.labels);
        let description = match edit.description {
            Some(d) => d,
            None => current.description,
        };
        self.update(
            id,
            UpdateTaskRequest {
                metadata: UpdateTaskMetadata { revision: current.metadata.revision },
                description,
                list,
                state,
                labels,
            },
        )
    }

    /// The address at which the tasks can be watched.
    pub fn watch_url(&self) -> (r: String)
        ensures
            r@ == tasks_url(self@) + "?watch=true"@,
    {
        let mut url: String = self.tasks_url();
        url.append("?watch=true");
        url
    }
}

// ------------------------------------------------------------------- answers

/// Whether an HTTP status says that a request succeeded.
pub open spec fn is_success(status: u16) -> bool {
    200 <= status < 300
}

/// What a client says of an answer that is no success: the error that the server
/// reports, or else the body.
pub open spec fn refusal_text(
    status_text: Seq<char>,
    body: Seq<char>,
    reported: Option<Seq<char>>,
) -> Seq<char> {
    "server returned "@ + status_text + ": "@ + match reported {
        Some(m) => m,
        None => trimmed(body),
    }
}

/// Decides whether an answer is a success, and what to say of it otherwise.
pub fn refusal(status: u16, status_text: &str, body: &str, reported: Option<String>) -> (r: Option<
    String,
>)
    ensures
        r is None <==> is_success(status),
        r is Some ==> r->0@ == refusal_text(
            status_text@,
            body@,
            optional_text(reported),
        ),
{
    if 200 <= status && status < 300 {
        return None;
    }
    let message = match reported {
        Some(m) => m,
        None => trim(body).to_owned(),
    };
    let mut out: String = "server returned ".to_owned();
    out.append(status_text);
    out.append(": ");
    out.append(message.as_str());
    Some(out)
}

} // verus!
