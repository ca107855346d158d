//! How the server reads a request and what it answers.

use vstd::prelude::*;
use vstd::string::*;
use crate::client::{collected_labels, labels_from_pairs};
use crate::domain::{optional_text, parsed_list, parsed_state, unknown_list};
use crate::domain::{unknown_state, FilterView, Task, TaskFilter, TaskList, TaskListMetadata};
use crate::domain::{TaskListResponse, TaskState};
use crate::errors::{Fault, StoreError};
use crate::labels::{LabelMap, Labels};
use crate::numbers::{ascii_bytes, decimal, lemma_decimal_read_back, parse_integer, parsed_integer};
use crate::numbers::signed_text;
use crate::replay::start_fault;
use crate::repository::{ListResult, MutationResult, RevisionState};
use crate::sequences::{lemma_filter_all, lemma_filter_take};
use crate::text::{split, split_all, texts};

verus! {

broadcast use vstd::string::group_string_axioms;

/// A refusal as the server answers it.
#[derive(Debug)]
pub struct ApiError(StoreError);

impl View for ApiError {
    type V = Fault;

    closed spec fn view(&self) -> Fault {
        self.0@
    }
}

impl ApiError {
    /// The refusal of the store, as the server answers it.
    pub fn from_store(error: StoreError) -> (r: ApiError)
        ensures
            r@ == error@,
    {
        ApiError(error)
    }

    /// The HTTP status of the answer.
    pub fn status(&self) -> (r: u16)
        ensures
            r == self@.status(),
    {
        self.0.status()
    }

    /// What the answer says.
    pub fn message(&self) -> (r: String)
        ensures
            r@ == self@.message(),
    {
        self.0.to_string()
    }
}

// ------------------------------------------------------------------- queries

/// The parameters of a request for tasks.
#[derive(Debug, Default)]
pub struct TaskQuery {
    pub watch: bool,
    pub revision: Option<i64>,
    pub list_name: Option<String>,
    pub state: Option<String>,
    pub labels: Option<String>,
}

/// What the parameters say of the wanted tasks.
#[verifier::ext_equal]
pub struct QueryView {
    pub watch: bool,
    pub revision: Option<i64>,
    pub list_name: Option<Seq<char>>,
    pub state: Option<Seq<char>>,
    pub labels: Option<Seq<char>>,
}

impl View for TaskQuery {
    type V = QueryView;

    open spec fn view(&self) -> QueryView {
        QueryView {
            watch: self.watch,
            revision: self.revision,
            list_name: optional_text(self.list_name),
            state: optional_text(self.state),
            labels: optional_text(self.labels),
        }
    }
}

/// The pieces that are not empty.
pub open spec fn present(parts: Seq<Seq<char>>) -> Seq<Seq<char>> {
    parts.filter(|p: Seq<char>| p.len() > 0)
}

/// The list that a query names.
pub open spec fn query_list(q: QueryView) -> Result<Option<TaskList>, Seq<char>> {
    match q.list_name {
        None => Ok(None),
        Some(s) => match parsed_list(s) {
            Some(l) => Ok(Some(l)),
            None => Err(unknown_list(s)),
        },
    }
}

/// The state that a query names.
pub open spec fn query_state(q: QueryView) -> Result<Option<TaskState>, Seq<char>> {
    match q.state {
        None => Ok(None),
        Some(s) => match parsed_state(s) {
            Some(l) => Ok(Some(l)),
            None => Err(unknown_state(s)),
        },
    }
}

/// The labels that a query asks for, separated by commas.
pub open spec fn query_labels(q: QueryView) -> Result<LabelMap, Seq<char>> {
    match q.labels {
        None => Ok(LabelMap::empty()),
        Some(s) => collected_labels(present(split(s, ','))),
    }
}

/// The filter that a query asks for; the list is examined first, then the state,
/// then the labels.
pub open spec fn query_filter(q: QueryView) -> Result<FilterView, Fault> {
    match query_list(q) {
        Err(m) => Err(Fault::Validation(m)),
        Ok(list) => match query_state(q) {
            Err(m) => Err(Fault::Validation(m)),
            Ok(state) => match query_labels(q) {
                Err(m) => Err(Fault::Validation(m)),
                Ok(labels) => Ok(FilterView { list, state, labels }),
            },
        },
    }
}

/// The view of what reading a filter returns.
pub open spec fn filter_result(r: Result<TaskFilter, ApiError>) -> Result<FilterView, Fault> {
    match r {
        Ok(f) => Ok(f@),
        Err(e) => Err(e@),
    }
}

fn without_empty(parts: Vec<String>) -> (r: Vec<String>)
    ensures
        texts(r@) == present(texts(parts@)),
{
    let ghost t = texts(parts@);
    let ghost p = |s: Seq<char>| s.len() > 0;
    let mut out: Vec<String> = Vec::new();
    let mut i: usize = 0;
    assert(texts(out@) =~= t.take(0).filter(p)) by {
        lemma_filter_all(t.take(0), p);
    }
    while i < parts.len()
        invariant
            i <= parts.len(),
            t == texts(parts@),
            p == (|s: Seq<char>| s.len() > 0),
            texts(out@) == t.take(i as int).filter(p),
        decreases parts.len() - i,
    {
        let ghost before = out@;
        assert(t[i as int] == parts@[i as int]@);
        proof {
            lemma_filter_take(t, p, i as int);
        }
        if parts[i].as_str().unicode_len() > 0 {
            let part = parts[i].clone();
            out.push(part);
            assert(texts(out@) =~= texts(before).push(part@));
        }
        i = i + 1;
    }
    assert(t.take(i as int) =~= t);
    out
}

impl TaskFilter {
    /// Reads the filter that a query asks for.
    pub fn try_from(query: TaskQuery) -> (r: Result<TaskFilter, ApiError>)
        ensures
            filter_result(r) == query_filter(query@),
    {
        let list = match query.list_name {
            None => None,
            Some(s) => match TaskList::parse_name(s.as_str()) {
                Ok(l) => Some(l),
                Err(m) => {
                    return Err(ApiError(StoreError::Validation(m)));
                },
            },
        };
        let state = match query.state {
            None => None,
            Some(s) => match TaskState::parse_name(s.as_str()) {
                Ok(l) => Some(l),
                Err(m) => {
                    return Err(ApiError(StoreError::Validation(m)));
                },
            },
        };
        let labels = match query.labels {
            None => Labels::new(),
            Some(s) => {
                let parts = without_empty(split_all(s.as_str(), ','));
                match labels_from_pairs(&parts) {
                    Ok(l) => l,
                    Err(m) => {
                        return Err(ApiError(StoreError::Validation(m)));
                    },
                }
            },
        };
        Ok(TaskFilter { list, state, labels })
    }
}

/// What a request for tasks asks for.
#[derive(Debug)]
pub enum TasksRequest {
    List(TaskFilter),
    Watch { revision: Option<i64>, filter: TaskFilter },
}

/// What a request for tasks asks for.
pub enum TasksView {
    List(FilterView),
    Watch { revision: Option<i64>, filter: FilterView },
}

impl View for TasksRequest {
    type V = TasksView;

    open spec fn view(&self) -> TasksView {
        match self {
            TasksRequest::List(f) => TasksView::List(f@),
            TasksRequest::Watch { revision, filter } => TasksView::Watch {
                revision: *revision,
                filter: filter@,
            },
        }
    }
}

/// What a query asks for: a list, or a watch from a revision. A list has no
/// revision to start at.
pub open spec fn asked(q: QueryView) -> Result<TasksView, Fault> {
    match query_filter(q) {
        Err(e) => Err(e),
        Ok(filter) => if q.watch {
            Ok(TasksView::Watch { revision: q.revision, filter })
        } else if q.revision is Some {
            Err(Fault::Validation("revision requires watch=true"@))
        } else {
            Ok(TasksView::List(filter))
        },
    }
}

/// The view of what reading a request returns.
pub open spec fn asked_result(r: Result<TasksRequest, ApiError>) -> Result<TasksView, Fault> {
    match r {
        Ok(t) => Ok(t@),
        Err(e) => Err(e@),
    }
}

/// Decides what a request for tasks asks for.
pub fn tasks(query: TaskQuery) -> (r: Result<TasksRequest, ApiError>)
    ensures
        asked_result(r) == asked(query@),
{
    let watch = query.watch;
    let revision = query.revision;
    let filter = match TaskFilter::try_from(query) {
        Err(e) => {
            return Err(e);
        },
        Ok(f) => f,
    };
    if watch {
        return Ok(TasksRequest::Watch { revision, filter });
    }
    if revision.is_some() {
        return Err(ApiError(StoreError::Validation("revision requires watch=true".to_owned())));
    }
    Ok(TasksRequest::List(filter))
}

// ------------------------------------------------------------------- answers

/// The answer to a list request: the tasks, with the revision at which they were
/// read.
pub fn list_response(result: ListResult) -> (r: TaskListResponse)
    ensures
        r.metadata.revision == result.revision,
        r.items == result.tasks,
{
    TaskListResponse {
        metadata: TaskListMetadata { revision: result.revision },
        items: result.tasks,
    }
}

/// The task that answers a change: as its event left it, under the revision of
/// the event.
pub fn change_response(result: &MutationResult) -> (r: Task)
    ensures
        r@ == result.event@.task(),
        r.metadata.revision == result.event.revision,
{
    result.event.task()
}

/// The value of the header that carries a revision.
pub fn revision_header(revision: i64) -> (r: String)
    ensures
        r@ == decimal(revision as int),
{
    signed_text(revision)
}

// --------------------------------------------------------- start of a watch

/// Where a watch starts: at the revision that is asked for; else after the last
/// event that the client has seen; else after the current revision.
pub open spec fn watch_start(
    revision: Option<i64>,
    last_event_id: Option<Seq<u8>>,
    current: i64,
) -> Result<i64, Fault> {
    match revision {
        Some(r) => Ok(r),
        None => match last_event_id {
            Some(b) => match parsed_integer(b) {
                None => Err(Fault::Validation("Last-Event-ID must be an integer"@)),
                Some(n) => if n == i64::MAX {
                    Err(Fault::Validation("Last-Event-ID is too large"@))
                } else {
                    Ok((n + 1) as i64)
                },
            },
            None => if current == i64::MAX {
                Err(Fault::Database("current revision overflow"@))
            } else {
                Ok((current + 1) as i64)
            },
        },
    }
}

/// The view of an optional header.
pub open spec fn header_bytes(o: Option<Vec<u8>>) -> Option<Seq<u8>> {
    match o {
        Some(v) => Some(v@),
        None => None,
    }
}

/// The view of what finding the start of a watch returns.
pub open spec fn start_result(r: Result<i64, ApiError>) -> Result<i64, Fault> {
    match r {
        Ok(n) => Ok(n),
        Err(e) => Err(e@),
    }
}

/// Finds the revision at which a watch starts.
pub fn resolve_watch_revision(
    revision: Option<i64>,
    last_event_id: &Option<Vec<u8>>,
    current_revision: i64,
) -> (r: Result<i64, ApiError>)
    ensures
        start_result(r) == watch_start(revision, header_bytes(*last_event_id), current_revision),
{
    if let Some(revision) = revision {
        return Ok(revision);
    }
    if let Some(value) = last_event_id {
        let seen = match parse_integer(value) {
            Some(n) => n,
            None => {
                return Err(
                    ApiError(StoreError::Validation("Last-Event-ID must be an integer".to_owned())),
                );
            },
        };
        if seen == i64::MAX {
            return Err(ApiError(StoreError::Validation("Last-Event-ID is too large".to_owned())));
        }
        return Ok(seen + 1);
    }
    if current_revision == i64::MAX {
        return Err(ApiError(StoreError::Database("current revision overflow".to_owned())));
    }
    Ok(current_revision + 1)
}

/// Refuses a watch that starts in closed history or beyond the next revision.
pub fn validate_watch_revision(
    revision: i64,
    current_revision: i64,
    scheduled_revision: i64,
) -> (r: Result<(), ApiError>)
    requires
        current_revision < i64::MAX || revision <= scheduled_revision,
    ensures
        ({
            let fault = start_fault(
                revision,
                RevisionState { current_revision, scheduled_revision, finished_revision: 0 },
            );
            &&& r is Ok <==> fault is None
            &&& r is Err ==> r->Err_0@ == fault->0
        }),
{
    if revision <= scheduled_revision {
        return Err(
            ApiError(
                StoreError::Compacted {
                    requested: revision,
                    compacted_revision: scheduled_revision,
                },
            ),
        );
    }
    if revision > current_revision + 1 {
        return Err(
            ApiError(StoreError::FutureRevision { requested: revision, current_revision }),
        );
    }
    Ok(())
}

/// `Last-Event-ID: R` resumes a watch at the revision after `R`.
pub proof fn lemma_resume_after_last_event(seen: i64, current: i64)
    requires
        seen < i64::MAX,
    ensures
        watch_start(None, Some(ascii_bytes(decimal(seen as int))), current) == Ok::<i64, Fault>(
            (seen + 1) as i64,
        ),
{
    lemma_decimal_read_back(seen);
}

/// Without a revision to start at, a watch begins with the next change, and the
/// server accepts that start.
pub proof fn lemma_watch_from_now(state: RevisionState)
    requires
        0 <= state.scheduled_revision <= state.current_revision < i64::MAX,
    ensures
        watch_start(None, None, state.current_revision) == Ok::<i64, Fault>(
            (state.current_revision + 1) as i64,
        ),
        start_fault((state.current_revision + 1) as i64, state) is None,
{
}

} // verus!
