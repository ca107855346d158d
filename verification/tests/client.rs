use gtd::api::TaskQuery;
use gtd::client::{labels_from_pairs, refusal, write_label_list, ApiClient, Body, Method};
use gtd::commands::{
    advance, compaction_report, print_tasks, require_terminal, run_client_command, ClientCommand,
    Outcome, Report, Stage, Step,
};
use gtd::domain::{
    Task, TaskEdit, TaskFilter, TaskId, TaskList, TaskMetadata, TaskState, Timestamp,
    UpdateTaskMetadata, UpdateTaskRequest,
};
use gtd::labels::Labels;
use gtd::repository::RevisionState;

const ID: TaskId = 0x019d_0000_0000_7000_8000_0000_0000_00ab;
const TEXT: &str = "019d0000-0000-7000-8000-0000000000ab";

fn labels(pairs: &[(&str, &str)]) -> Labels {
    let mut labels = Labels::new();
    for (key, value) in pairs {
        labels.insert((*key).to_owned(), (*value).to_owned());
    }
    labels
}

fn task(labels: Labels) -> Task {
    let now = Timestamp { seconds: 1, nanos: 0 };
    Task {
        metadata: TaskMetadata { id: ID, revision: 41, created_at: now, updated_at: now },
        description: "Write the guide".to_owned(),
        list: TaskList::NextAction,
        state: TaskState::Doing,
        labels,
    }
}

fn client() -> ApiClient {
    ApiClient::new("http://127.0.0.1:4040//").unwrap()
}

fn lines(step: Step) -> Vec<String> {
    match step {
        Step::Print(lines) => lines,
        other => panic!("unexpected step {other:?}"),
    }
}

fn strings(values: &[&str]) -> Vec<String> {
    values.iter().map(|value| (*value).to_owned()).collect()
}

#[test]
fn only_plain_http_servers_are_accepted() {
    assert_eq!(client().watch_url(), "http://127.0.0.1:4040/api/v1/tasks?watch=true");
    for url in ["https://host", "host", "http://", ""] {
        assert_eq!(
            ApiClient::new(url).unwrap_err(),
            "server URL must start with http://"
        );
    }
}

#[test]
fn requests_are_addressed() {
    let request = client().create("Capture".to_owned());
    assert_eq!(request.method, Method::Post);
    assert_eq!(request.url, "http://127.0.0.1:4040/api/v1/tasks");
    assert!(matches!(request.body, Body::Create(create) if create.description == "Capture"));

    let request = client().get(ID);
    assert_eq!(request.method, Method::Get);
    assert_eq!(request.url, format!("http://127.0.0.1:4040/api/v1/tasks/{TEXT}"));
    assert!(matches!(request.body, Body::Nothing));

    let update = UpdateTaskRequest {
        metadata: UpdateTaskMetadata { revision: 3 },
        description: "x".to_owned(),
        list: TaskList::Inbox,
        state: TaskState::Doing,
        labels: Labels::new(),
    };
    let request = client().update(ID, update);
    assert_eq!(request.method, Method::Put);
    assert_eq!(request.url, format!("http://127.0.0.1:4040/api/v1/tasks/{TEXT}"));
    assert!(matches!(request.body, Body::Update(update) if update.metadata.revision == 3));
}

#[test]
fn list_requests_carry_what_the_filter_names() {
    let request = client().list(&TaskFilter::default());
    assert_eq!(request.method, Method::Get);
    assert!(request.query.is_empty());
    let request = client().list(&TaskFilter {
        list: Some(TaskList::NextAction),
        state: Some(TaskState::Pending),
        labels: labels(&[("project", "gtd"), ("place", "home")]),
    });
    assert_eq!(
        request.query,
        vec![
            ("list".to_owned(), "next-action".to_owned()),
            ("state".to_owned(), "pending".to_owned()),
            ("labels".to_owned(), "place:home,project:gtd".to_owned()),
        ]
    );
}

#[test]
fn a_list_request_is_understood_as_it_was_meant() {
    let filter = TaskFilter {
        list: Some(TaskList::Archive),
        state: Some(TaskState::Done),
        labels: labels(&[("when", "10:30"), ("project", "gtd")]),
    };
    let mut query = TaskQuery::default();
    for (name, value) in client().list(&filter).query {
        match name.as_str() {
            "list" => query.list_name = Some(value),
            "state" => query.state = Some(value),
            "labels" => query.labels = Some(value),
            other => panic!("unexpected parameter {other}"),
        }
    }
    let read = TaskFilter::try_from(query).unwrap();
    assert_eq!((read.list, read.state), (filter.list, filter.state));
    assert!(read.labels.same(&filter.labels));

    let split = TaskFilter { labels: labels(&[("a", "b=c")]), ..TaskFilter::default() };
    let query = TaskQuery {
        labels: Some(client().list(&split).query[0].1.clone()),
        ..TaskQuery::default()
    };
    assert!(TaskFilter::try_from(query).is_err());
}

#[test]
fn an_edit_is_merged_into_the_task_that_was_read() {
    let edit = TaskEdit { labels: labels(&[("b", "2"), ("a", "9")]), description: None };
    let request = client().update_state(
        ID,
        task(labels(&[("a", "1"), ("c", "3")])),
        TaskList::Archive,
        TaskState::Done,
        edit,
    );
    let update = match request.body {
        Body::Update(update) => update,
        other => panic!("unexpected body {other:?}"),
    };
    assert_eq!(update.metadata.revision, 41);
    assert_eq!(update.description, "Write the guide");
    assert_eq!((update.list, update.state), (TaskList::Archive, TaskState::Done));
    assert!(update.labels.same(&labels(&[("a", "9"), ("b", "2"), ("c", "3")])));

    let edit = TaskEdit { labels: Labels::new(), description: Some("New".to_owned()) };
    let request = client().update_state(
        ID,
        task(Labels::new()),
        TaskList::Archive,
        TaskState::Trash,
        edit,
    );
    assert!(matches!(request.body, Body::Update(update) if update.description == "New"));
}

#[test]
fn refusals_report_the_error_or_the_body() {
    assert_eq!(refusal(200, "200 OK", "", None), None);
    assert_eq!(refusal(299, "299 Odd", "", None), None);
    assert_eq!(
        refusal(404, "404 Not Found", "{}", Some("task x was not found".to_owned())),
        Some("server returned 404 Not Found: task x was not found".to_owned())
    );
    assert_eq!(
        refusal(502, "502 Bad Gateway", " upstream down\n", None),
        Some("server returned 502 Bad Gateway: upstream down".to_owned())
    );
    assert!(refusal(300, "300 Multiple Choices", "", None).is_some());
    assert!(refusal(199, "199", "", None).is_some());
}

#[test]
fn repeated_labels_are_collected() {
    let read = labels_from_pairs(&strings(&["a:1", "b=2", "a: 3 "])).unwrap();
    assert_eq!(write_label_list(&read), "a:3,b:2");
    assert_eq!(
        labels_from_pairs(&strings(&["a:1", "b", "=c"])).unwrap_err(),
        "invalid label 'b'; expected key:value"
    );
    assert!(labels_from_pairs(&Vec::new()).unwrap().is_empty());
}

#[test]
fn add_joins_its_words_and_reports_the_task() {
    let command = ClientCommand::Add { words: strings(&["Write", "the", "guide"]) };
    let (stage, step) = run_client_command(&client(), command, false);
    match step {
        Step::Send(request) => {
            assert!(matches!(request.body, Body::Create(c) if c.description == "Write the guide"))
        }
        other => panic!("unexpected step {other:?}"),
    }
    let captured = Task { list: TaskList::Inbox, ..task(Labels::new()) };
    let (_, step) = advance(&client(), stage, Outcome::Task(captured));
    assert_eq!(lines(step), vec![format!("captured #{TEXT} in in: Write the guide")]);
}

#[test]
fn pick_reads_the_task_before_it_moves_it() {
    let (stage, step) = run_client_command(&client(), ClientCommand::Pick { chosen: Some(ID) }, false);
    assert!(matches!(step, Step::Send(request) if request == client().get(ID)));
    let (stage, step) = advance(&client(), stage, Outcome::Task(task(Labels::new())));
    assert!(matches!(stage, Stage::Updating { report: Report::Doing }));
    match step {
        Step::Send(request) => assert!(matches!(
            request.body,
            Body::Update(u) if (u.list, u.state) == (TaskList::NextAction, TaskState::Doing)
        )),
        other => panic!("unexpected step {other:?}"),
    }
    let (_, step) = advance(&client(), stage, Outcome::Task(task(Labels::new())));
    assert_eq!(lines(step), vec![format!("doing #{TEXT}: Write the guide")]);
}

#[test]
fn pick_without_an_identifier_asks_or_fails() {
    let pick = || ClientCommand::Pick { chosen: None };
    let (stage, step) = run_client_command(&client(), pick(), false);
    match step {
        Step::Send(request) => assert_eq!(
            request.query,
            vec![
                ("list".to_owned(), "next-action".to_owned()),
                ("state".to_owned(), "pending".to_owned()),
            ]
        ),
        other => panic!("unexpected step {other:?}"),
    }
    let found = vec![task(Labels::new()), task(Labels::new())];
    let (_, step) = advance(&client(), stage, Outcome::Tasks(found));
    assert_eq!(
        step,
        Step::Fail(format!(
            "pick needs a task ID when stdin is not a terminal; available IDs: {TEXT}, {TEXT}"
        ))
    );

    let (stage, _) = run_client_command(&client(), pick(), false);
    let (_, step) = advance(&client(), stage, Outcome::Tasks(Vec::new()));
    assert_eq!(lines(step), strings(&["no pending task in next-action"]));

    let (stage, _) = run_client_command(&client(), pick(), true);
    let (stage, step) = advance(&client(), stage, Outcome::Tasks(vec![task(Labels::new())]));
    assert_eq!(step, Step::Select);
    assert_eq!(stage.choices().unwrap().len(), 1);
    let (stage, step) = advance(&client(), stage, Outcome::Selected(Some(0)));
    assert!(matches!(stage, Stage::Reading { .. }));
    assert!(stage.choices().is_none());
    assert!(matches!(step, Step::Send(request) if request == client().get(ID)));

    let (stage, _) = run_client_command(&client(), pick(), true);
    let (stage, _) = advance(&client(), stage, Outcome::Tasks(vec![task(Labels::new())]));
    let (_, step) = advance(&client(), stage, Outcome::Selected(None));
    assert_eq!(lines(step), strings(&["no pending task in next-action"]));
}

#[test]
fn done_checks_its_labels_before_any_request() {
    let done = |labels: &[&str]| ClientCommand::Done {
        id: ID,
        labels: strings(labels),
        description: Some("Published".to_owned()),
    };
    let (_, step) = run_client_command(&client(), done(&["result"]), false);
    assert_eq!(step, Step::Fail("invalid label 'result'; expected key:value".to_owned()));

    let (stage, step) = run_client_command(&client(), done(&["result:published"]), false);
    assert!(matches!(step, Step::Send(request) if request == client().get(ID)));
    let (stage, step) = advance(&client(), stage, Outcome::Task(task(labels(&[("a", "1")]))));
    match step {
        Step::Send(request) => match request.body {
            Body::Update(update) => {
                assert_eq!(update.description, "Published");
                assert_eq!((update.list, update.state), (TaskList::Archive, TaskState::Done));
                assert_eq!(write_label_list(&update.labels), "a:1,result:published");
            }
            other => panic!("unexpected body {other:?}"),
        },
        other => panic!("unexpected step {other:?}"),
    }
    let (_, step) = advance(&client(), stage, Outcome::Task(task(Labels::new())));
    assert_eq!(lines(step), vec![format!("archived #{TEXT} as done: Write the guide")]);
}

#[test]
fn done_accepts_only_a_doing_task() {
    for (list, state, place) in [
        (TaskList::Archive, TaskState::Done, "archive/done"),
        (TaskList::Archive, TaskState::Trash, "archive/trash"),
        (TaskList::NextAction, TaskState::Pending, "next-action/pending"),
    ] {
        let done = ClientCommand::Done {
            id: ID,
            labels: Vec::new(),
            description: Some("Done again".to_owned()),
        };
        let (stage, _) = run_client_command(&client(), done, false);
        let read = Task { list, state, ..task(Labels::new()) };
        let (stage, step) = advance(&client(), stage, Outcome::Task(read));
        assert_eq!(stage, Stage::Over);
        assert_eq!(
            step,
            Step::Fail(format!("'done' accepts only a doing task; task {TEXT} is {place}"))
        );
    }
}

#[test]
fn list_prints_lines_or_json() {
    let list = |json| ClientCommand::List {
        list: TaskList::Archive,
        labels: strings(&["project:gtd"]),
        state: None,
        json,
    };
    let (stage, _) = run_client_command(&client(), list(false), false);
    let found = vec![task(labels(&[("b", "2"), ("a", "1")])), task(Labels::new())];
    let (_, step) = advance(&client(), stage, Outcome::Tasks(found));
    assert_eq!(
        lines(step),
        vec![
            format!("#{TEXT} doing Write the guide · [a:1,b:2]"),
            format!("#{TEXT} doing Write the guide"),
        ]
    );
    let (stage, _) = run_client_command(&client(), list(true), false);
    let (_, step) = advance(&client(), stage, Outcome::Tasks(vec![task(Labels::new())]));
    assert!(matches!(step, Step::PrintJson(tasks) if tasks.len() == 1));
    assert_eq!(print_tasks(&Vec::new()), strings(&["no tasks"]));
}

#[test]
fn sessions_need_a_terminal() {
    let (_, step) = run_client_command(&client(), ClientCommand::Process, false);
    assert_eq!(step, Step::Fail("'process' requires an interactive terminal".to_owned()));
    let (_, step) = run_client_command(&client(), ClientCommand::Review, false);
    assert_eq!(step, Step::Fail("'review' requires an interactive terminal".to_owned()));
    assert!(require_terminal("process", true).is_ok());

    let (stage, step) = run_client_command(&client(), ClientCommand::Process, true);
    assert_eq!(step, Step::Process);
    let (_, step) = advance(&client(), stage, Outcome::Count(3));
    assert_eq!(lines(step), strings(&["processed 3 inbox task(s)"]));
    let (stage, step) = run_client_command(&client(), ClientCommand::Review, true);
    assert_eq!(step, Step::Review);
    let (_, step) = advance(&client(), stage, Outcome::Count(10));
    assert_eq!(lines(step), strings(&["reviewed 10 task(s)"]));
}

#[test]
fn a_compaction_is_reported_with_its_watermarks() {
    let state =
        RevisionState { current_revision: 120, scheduled_revision: 100, finished_revision: 99 };
    assert_eq!(
        compaction_report(state),
        "compacted task events: scheduled=100, finished=99, current=120"
    );
}
