use gtd::api::{
    change_response, list_response, resolve_watch_revision, revision_header, tasks,
    validate_watch_revision, ApiError, TaskQuery, TasksRequest,
};
use gtd::domain::{
    TaskFilter, TaskId, TaskList, TaskState, UpdateTaskMetadata, UpdateTaskRequest,
};
use gtd::errors::StoreError;
use gtd::labels::Labels;
use gtd::repository::{EventLog, MutationResult, RevisionState};
use gtd::watch::{compacted_event, WatchStep, Watcher, WATCH_BATCH_SIZE};

fn header(value: &str) -> Option<Vec<u8>> {
    Some(value.as_bytes().to_vec())
}

fn create(log: &mut EventLog, description: &str) -> MutationResult {
    let id = loop {
        if let Some(id) = log.fresh_id() {
            break id;
        }
    };
    log.create(id, description).unwrap()
}

fn update(
    log: &mut EventLog,
    id: TaskId,
    description: &str,
    list: TaskList,
    state: TaskState,
    labels: Labels,
) -> MutationResult {
    let revision = log.get(id).unwrap().metadata.revision;
    log.update(
        id,
        &UpdateTaskRequest {
            metadata: UpdateTaskMetadata { revision },
            description: description.to_owned(),
            list,
            state,
            labels,
        },
    )
    .unwrap()
}

fn query(
    watch: bool,
    revision: Option<i64>,
    list: Option<&str>,
    state: Option<&str>,
    labels: Option<&str>,
) -> TaskQuery {
    TaskQuery {
        watch,
        revision,
        list_name: list.map(str::to_owned),
        state: state.map(str::to_owned),
        labels: labels.map(str::to_owned),
    }
}

fn drain(log: &EventLog, watcher: &mut Watcher) -> Vec<i64> {
    let mut seen = Vec::new();
    loop {
        let reading = log.events_from(watcher.next_revision, WATCH_BATCH_SIZE);
        match watcher.on_batch(reading) {
            WatchStep::Send(events) => {
                seen.extend(events.iter().map(|event| event.task.metadata.revision))
            }
            WatchStep::Wait => return seen,
            other => panic!("unexpected step {other:?}"),
        }
    }
}

fn next(log: &EventLog, watcher: &mut Watcher) -> Vec<i64> {
    let reading = log.events_from(watcher.next_revision, 1);
    match watcher.on_batch(reading) {
        WatchStep::Send(events) => {
            events.iter().map(|event| event.task.metadata.revision).collect()
        }
        other => panic!("unexpected step {other:?}"),
    }
}

fn start(log: &EventLog, revision: Option<i64>, last: Option<&str>) -> Result<Watcher, ApiError> {
    Watcher::start(
        revision,
        &last.and_then(header),
        log.revision_state(),
        TaskFilter::default(),
    )
}

#[test]
fn watch_revision_prefers_query_over_last_event_id() {
    let last_event_id = header("4");
    assert_eq!(resolve_watch_revision(Some(7), &last_event_id, 9).unwrap(), 7);
}

#[test]
fn a_watch_resumes_after_the_last_event_or_the_current_revision() {
    assert_eq!(resolve_watch_revision(None, &header("4"), 9).unwrap(), 5);
    assert_eq!(resolve_watch_revision(None, &header("-1"), 9).unwrap(), 0);
    assert_eq!(resolve_watch_revision(None, &header("+4"), 9).unwrap(), 5);
    assert_eq!(resolve_watch_revision(None, &None, 9).unwrap(), 10);
    for bad in ["", "x", "4 ", "9223372036854775808", "+", "-"] {
        let error = resolve_watch_revision(None, &header(bad), 9).unwrap_err();
        assert_eq!(error.message(), "invalid request: Last-Event-ID must be an integer");
        assert_eq!(error.status(), 400);
    }
    assert_eq!(
        resolve_watch_revision(None, &header("9223372036854775807"), 9).unwrap_err().message(),
        "invalid request: Last-Event-ID is too large"
    );
    let full = resolve_watch_revision(None, &None, i64::MAX).unwrap_err();
    assert_eq!(full.message(), "database error: current revision overflow");
    assert_eq!(full.status(), 500);
}

#[test]
fn a_watch_starts_only_where_the_log_can_be_read() {
    assert!(validate_watch_revision(3, 5, 2).is_ok());
    assert!(validate_watch_revision(6, 5, 2).is_ok());
    let gone = validate_watch_revision(2, 5, 2).unwrap_err();
    assert_eq!(gone.status(), 410);
    assert_eq!(gone.message(), "revision 2 has been compacted at revision 2");
    let ahead = validate_watch_revision(7, 5, 2).unwrap_err();
    assert_eq!(ahead.status(), 400);
    assert_eq!(ahead.message(), "revision 7 is ahead of current revision 5");
}

#[test]
fn creating_listing_and_updating_carry_revisions() {
    let mut log = EventLog::new();
    let created = create(&mut log, "Capture me");
    assert_eq!(revision_header(created.event.revision), "1");
    let task = change_response(&created);
    assert!(task.labels.is_empty());
    assert_eq!(task.metadata.revision, 1);
    assert_eq!((task.metadata.id >> 76) & 0xf, 7);
    assert_eq!(log.get(task.metadata.id).unwrap().metadata.revision, 1);

    let filter = match tasks(query(false, None, Some("in"), None, None)).unwrap() {
        TasksRequest::List(filter) => filter,
        TasksRequest::Watch { .. } => panic!("a list was asked for"),
    };
    let listed = list_response(log.list(&filter));
    assert_eq!(listed.metadata.revision, 1);
    assert_eq!(listed.items.len(), 1);
    assert_eq!(listed.items[0].metadata.revision, 1);
    assert_eq!(listed.items[0].description, "Capture me");

    let updated = update(
        &mut log,
        task.metadata.id,
        "Capture me with details",
        TaskList::Inbox,
        TaskState::Doing,
        Labels::new(),
    );
    assert_eq!(revision_header(updated.event.revision), "2");
    let task = change_response(&updated);
    assert_eq!(task.metadata.revision, 2);
    assert_eq!(task.state, TaskState::Doing);
    assert_eq!(task.description, "Capture me with details");

    let stale = log
        .update(
            task.metadata.id,
            &UpdateTaskRequest {
                metadata: UpdateTaskMetadata { revision: 1 },
                description: "stale".to_owned(),
                list: TaskList::Archive,
                state: TaskState::Done,
                labels: Labels::new(),
            },
        )
        .unwrap_err();
    let stale = ApiError::from_store(stale);
    assert_eq!(stale.status(), 409);
    assert!(stale.message().contains("expected revision 1, current revision 2"));
}

#[test]
fn a_created_task_is_watched_under_its_revision() {
    let mut log = EventLog::new();
    create(&mut log, "Watch me");
    let mut watcher = start(&log, Some(1), None).unwrap();
    let reading = log.events_from(watcher.next_revision, WATCH_BATCH_SIZE);
    let events = match watcher.on_batch(reading) {
        WatchStep::Send(events) => events,
        other => panic!("unexpected step {other:?}"),
    };
    assert_eq!(revision_header(events[0].task.metadata.revision), "1");
    assert_eq!(events[0].event_type.as_str(), "task.created");
    assert_eq!(events[0].task.metadata.revision, 1);
    assert!(events[0].prev_task.is_none());
    assert_eq!(watcher.next_revision, 2);
}

#[test]
fn an_update_is_watched_with_its_previous_task() {
    let mut log = EventLog::new();
    let created = create(&mut log, "Update me");
    update(
        &mut log,
        created.event.task_id,
        "Update me with details",
        TaskList::NextAction,
        TaskState::Pending,
        Labels::new(),
    );
    let mut watcher = start(&log, Some(2), None).unwrap();
    let reading = log.events_from(watcher.next_revision, WATCH_BATCH_SIZE);
    let events = match watcher.on_batch(reading) {
        WatchStep::Send(events) => events,
        other => panic!("unexpected step {other:?}"),
    };
    let event = &events[0];
    assert_eq!(event.event_type.as_str(), "task.updated");
    assert_eq!(event.task.metadata.revision, 2);
    assert_eq!(event.task.description, "Update me with details");
    let prev_task = event.prev_task.as_ref().unwrap();
    assert_eq!(prev_task.metadata.revision, 1);
    assert_eq!(prev_task.metadata.created_at, created.event.created_at);
    assert_eq!(prev_task.metadata.updated_at, created.event.updated_at);
    assert_eq!(prev_task.description, "Update me");
}

#[test]
fn watch_supports_list_state_and_label_filters() {
    let mut log = EventLog::new();
    let id = create(&mut log, "Filtered watch").event.task_id;
    let mut labels = Labels::new();
    labels.insert("project".to_owned(), "gtd".to_owned());
    update(
        &mut log,
        id,
        "Filtered watch",
        TaskList::NextAction,
        TaskState::Pending,
        labels.clone(),
    );
    update(&mut log, id, "Filtered watch", TaskList::NextAction, TaskState::Doing, labels);
    let asked = query(true, Some(1), Some("next-action"), Some("doing"), Some("project:gtd"));
    let (revision, filter) = match tasks(asked).unwrap() {
        TasksRequest::Watch { revision, filter } => (revision, filter),
        TasksRequest::List(_) => panic!("a watch was asked for"),
    };
    let mut watcher = Watcher::start(revision, &None, log.revision_state(), filter).unwrap();
    assert_eq!(drain(&log, &mut watcher), vec![3]);
    assert_eq!(watcher.next_revision, 4);
    update(&mut log, id, "Filtered watch", TaskList::Archive, TaskState::Done, Labels::new());
    assert_eq!(drain(&log, &mut watcher), vec![4]);
}

#[test]
fn watch_rejects_an_already_compacted_revision() {
    let mut log = EventLog::new();
    create(&mut log, "Compact me");
    log.compact(1).unwrap();
    assert_eq!(start(&log, Some(1), None).unwrap_err().status(), 410);
}

#[test]
fn watch_replays_unacknowledged_events_after_server_restart() {
    let mut log = EventLog::new();
    for number in 1..=4 {
        create(&mut log, &format!("before restart {number}"));
    }
    let mut watch = start(&log, Some(1), None).unwrap();
    assert_eq!(next(&log, &mut watch), vec![1]);

    let mut revisions = vec![1];
    let mut resumed = start(&log, None, Some("1")).unwrap();
    revisions.extend(drain(&log, &mut resumed));
    create(&mut log, "after restart");
    revisions.extend(drain(&log, &mut resumed));
    assert_eq!(revisions, vec![1, 2, 3, 4, 5]);
}

#[test]
fn watch_client_restart_resumes_from_its_persisted_revision() {
    let mut log = EventLog::new();
    for number in 1..=6 {
        create(&mut log, &format!("event {number}"));
    }
    let mut first_client = start(&log, Some(1), None).unwrap();
    assert_eq!(next(&log, &mut first_client), vec![1]);
    assert_eq!(next(&log, &mut first_client), vec![2]);

    let mut restarted_client = start(&log, Some(3), None).unwrap();
    assert_eq!(drain(&log, &mut restarted_client), vec![3, 4, 5, 6]);
}

#[test]
fn watch_recovers_events_committed_during_a_network_interruption() {
    let mut log = EventLog::new();
    let mut watch = start(&log, Some(1), None).unwrap();
    create(&mut log, "before disconnect");
    assert_eq!(drain(&log, &mut watch), vec![1]);
    for number in 2..=4 {
        create(&mut log, &format!("while disconnected {number}"));
    }
    let mut resumed = start(&log, None, Some("1")).unwrap();
    assert_eq!(drain(&log, &mut resumed), vec![2, 3, 4]);
}

#[test]
fn compact_rejects_old_watchers_and_preserves_watchers_after_the_watermark() {
    let mut log = EventLog::new();
    let id = create(&mut log, "versioned task").event.task_id;
    update(&mut log, id, "versioned task", TaskList::Inbox, TaskState::Doing, Labels::new());
    update(&mut log, id, "versioned task", TaskList::Archive, TaskState::Trash, Labels::new());
    assert_eq!(log.revision_state().scheduled_revision, 0);

    let mut active = start(&log, Some(3), None).unwrap();
    assert_eq!(drain(&log, &mut active), vec![3]);

    let state = log.compact(3).unwrap();
    assert_eq!(state.scheduled_revision, 3);
    assert_eq!(state.finished_revision, 3);
    assert_eq!(log.events().len(), 1);
    assert_eq!(start(&log, Some(3), None).unwrap_err().status(), 410);

    create(&mut log, "revision 4");
    assert_eq!(drain(&log, &mut active), vec![4]);
    create(&mut log, "revision 5");
    assert_eq!(drain(&log, &mut active), vec![5]);

    let mut retained = start(&log, Some(4), None).unwrap();
    assert_eq!(drain(&log, &mut retained), vec![4, 5]);

    let mut live = start(&log, Some(6), None).unwrap();
    log.compact(5).unwrap();
    create(&mut log, "after compact");
    assert_eq!(drain(&log, &mut live), vec![6]);

    let listed = list_response(log.list(&TaskFilter::default()));
    assert_eq!(listed.metadata.revision, 6);
    assert_eq!(listed.items.len(), 4);
}

#[test]
fn a_watcher_left_behind_is_told_so_and_stops() {
    let mut log = EventLog::new();
    create(&mut log, "One");
    create(&mut log, "Two");
    let mut slow = start(&log, Some(1), None).unwrap();
    log.compact(2).unwrap();
    let reading = log.events_from(slow.next_revision, WATCH_BATCH_SIZE);
    assert!(matches!(slow.on_batch(reading), WatchStep::Compacted { compacted_revision: 2 }));
    let told = compacted_event(2, Some(log.revision_state()));
    assert_eq!((told.scheduled_revision, told.current_revision), (2, 2));
    assert_eq!(compacted_event(2, None).current_revision, 2);
    let five = RevisionState { current_revision: 5, scheduled_revision: 2, finished_revision: 2 };
    assert_eq!(compacted_event(2, Some(five)).current_revision, 5);
    let failed = slow.on_batch(Err(StoreError::Database("gone".to_owned())));
    assert!(matches!(failed, WatchStep::Fail(m) if m == "database error: gone"));
    assert_eq!(slow.next_revision, 1);
}

#[test]
fn a_list_hands_over_to_a_watch_without_a_gap() {
    let mut log = EventLog::new();
    create(&mut log, "Listed");
    let listed = log.list(&TaskFilter::default());
    create(&mut log, "Between list and watch");
    let mut watcher = start(&log, Some(listed.revision + 1), None).unwrap();
    assert_eq!(drain(&log, &mut watcher), vec![2]);
}

#[test]
fn long_histories_are_watched_in_batches() {
    let mut log = EventLog::new();
    for number in 0..600 {
        create(&mut log, &format!("event {number}"));
    }
    let mut watcher = start(&log, Some(1), None).unwrap();
    assert_eq!(drain(&log, &mut watcher), (1..=600).collect::<Vec<i64>>());
}

#[test]
fn queries_are_read_in_order_and_refused_by_name() {
    let message = |q: TaskQuery| tasks(q).unwrap_err().message();
    assert_eq!(
        message(query(false, Some(1), Some("nowhere"), Some("idle"), None)),
        "invalid request: unknown list 'nowhere'; expected in, next-action, waiting-for, someday-maybe, or archive"
    );
    assert_eq!(
        message(query(false, Some(1), Some("next"), Some("idle"), Some("x"))),
        "invalid request: unknown state 'idle'; expected pending, doing, done, or trash"
    );
    assert_eq!(
        message(query(false, Some(1), None, None, Some("a:1,,x"))),
        "invalid request: invalid label 'x'; expected key:value"
    );
    assert_eq!(
        message(query(false, Some(1), None, None, Some(""))),
        "invalid request: revision requires watch=true"
    );
    let filter = TaskFilter::try_from(query(
        false,
        None,
        Some("maybe"),
        Some("pending"),
        Some(",a:1,b=2,a:3,"),
    ))
    .unwrap();
    assert_eq!(filter.list, Some(TaskList::SomedayMaybe));
    assert_eq!(filter.state, Some(TaskState::Pending));
    assert_eq!(filter.labels.get("a"), Some("3"));
    assert_eq!(filter.labels.get("b"), Some("2"));
    assert_eq!(filter.labels.len(), 2);
}
