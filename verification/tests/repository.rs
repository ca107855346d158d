use gtd::domain::{
    TaskEvent, TaskEventType, TaskFilter, TaskId, TaskList, TaskState, Timestamp,
    UpdateTaskMetadata, UpdateTaskRequest,
};
use gtd::domain::TaskList::{Archive, Inbox, NextAction, SomedayMaybe, WaitingFor};
use gtd::domain::TaskState::{Doing, Done, Pending, Trash};
use gtd::errors::StoreError;
use gtd::labels::Labels;
use gtd::repository::{pending_compaction, EventLog, MutationResult, RevisionState};
use gtd::rules::{normalize_labels, validate_description, validate_state_change};

const ID: TaskId = 0x019d_0000_0000_7000_8000_0000_0000_0001;

fn labels(pairs: &[(&str, &str)]) -> Labels {
    let mut labels = Labels::new();
    for (key, value) in pairs {
        labels.insert((*key).to_owned(), (*value).to_owned());
    }
    labels
}

fn version(id: TaskId) -> u128 {
    (id >> 76) & 0xf
}

fn create(log: &mut EventLog, description: &str) -> MutationResult {
    let id = loop {
        if let Some(id) = log.fresh_id() {
            break id;
        }
    };
    log.create(id, description).unwrap()
}

fn update_state(
    log: &mut EventLog,
    id: TaskId,
    list: TaskList,
    state: TaskState,
    labels: Option<Labels>,
) -> Result<MutationResult, StoreError> {
    let current = log.get(id)?;
    log.update(
        id,
        &UpdateTaskRequest {
            metadata: UpdateTaskMetadata { revision: current.metadata.revision },
            description: current.description,
            list,
            state,
            labels: labels.unwrap_or(current.labels),
        },
    )
}

fn request(
    revision: i64,
    description: &str,
    list: TaskList,
    state: TaskState,
    labels: Labels,
) -> UpdateTaskRequest {
    UpdateTaskRequest {
        metadata: UpdateTaskMetadata { revision },
        description: description.to_owned(),
        list,
        state,
        labels,
    }
}

#[test]
fn valid_state_changes_are_accepted() {
    let task_id = ID;
    let cases = [
        ((TaskList::Inbox, TaskState::Pending), (TaskList::Inbox, TaskState::Doing)),
        ((TaskList::NextAction, TaskState::Pending), (TaskList::NextAction, TaskState::Doing)),
        ((TaskList::NextAction, TaskState::Doing), (TaskList::Archive, TaskState::Done)),
        ((TaskList::WaitingFor, TaskState::Pending), (TaskList::Archive, TaskState::Trash)),
        ((TaskList::Inbox, TaskState::Pending), (TaskList::NextAction, TaskState::Pending)),
        ((TaskList::Inbox, TaskState::Pending), (TaskList::WaitingFor, TaskState::Pending)),
        ((TaskList::Inbox, TaskState::Pending), (TaskList::SomedayMaybe, TaskState::Pending)),
        ((TaskList::SomedayMaybe, TaskState::Pending), (TaskList::NextAction, TaskState::Pending)),
    ];

    for ((before_list, before_state), (target_list, target_state)) in cases {
        validate_state_change(task_id, before_list, before_state, target_list, target_state)
            .unwrap();
    }
}

#[test]
fn list_loose_scan_handles_an_empty_event_log() {
    let log = EventLog::new();
    let result = log.list(&TaskFilter::default());
    assert_eq!(result.revision, 0);
    assert!(result.tasks.is_empty());
}

#[test]
fn complete_lifecycle_appends_events_and_preserves_before_state() {
    let mut log = EventLog::new();
    let created = create(&mut log, "Write the guide");
    assert_eq!(created.event.revision, 1);
    assert_eq!(created.event.event_type, TaskEventType::Created);
    assert!(created.event.prev_revision.is_none());
    assert!(created.event.prev_description.is_none());
    assert!(created.event.prev_list_name.is_none());
    assert!(created.event.prev_state.is_none());
    assert!(created.event.prev_labels.is_none());
    assert!(created.event.prev_updated_at.is_none());
    assert_eq!(version(created.event.task_id), 7);

    let moved_to_next = update_state(
        &mut log,
        created.event.task_id,
        TaskList::NextAction,
        TaskState::Pending,
        Some(labels(&[("project", "gtd")])),
    )
    .unwrap();
    assert_eq!(moved_to_next.event.revision, 2);
    assert_eq!(moved_to_next.event.event_type, TaskEventType::Updated);
    assert_eq!(moved_to_next.event.prev_revision, Some(1));
    assert_eq!(
        moved_to_next.event.prev_description.as_deref(),
        Some(created.event.description.as_str())
    );
    assert_eq!(moved_to_next.event.prev_list_name, Some(TaskList::Inbox));
    assert_eq!(moved_to_next.event.prev_state, Some(TaskState::Pending));
    assert_eq!(moved_to_next.event.prev_labels, Some(Labels::new()));
    assert_eq!(moved_to_next.event.prev_updated_at, Some(created.event.updated_at));
    assert_eq!(moved_to_next.event.list_name, TaskList::NextAction);

    let id = created.event.task_id;
    let doing =
        update_state(&mut log, id, TaskList::NextAction, TaskState::Doing, None).unwrap();
    let archived = update_state(&mut log, id, TaskList::Archive, TaskState::Done, None).unwrap();
    assert_eq!(doing.event.revision, 3);
    assert_eq!(doing.event.event_type, TaskEventType::Updated);
    assert_eq!(archived.event.revision, 4);
    assert_eq!(archived.event.event_type, TaskEventType::Updated);
    assert_eq!(
        (archived.event.list_name, archived.event.state),
        (TaskList::Archive, TaskState::Done)
    );
    assert_eq!(archived.event.labels.get("project"), Some("gtd"));
}

#[test]
fn conditional_update_checks_revision_and_replaces_description_and_labels() {
    let mut log = EventLog::new();
    let created = create(&mut log, "Initial description");
    let id = created.event.task_id;

    let moved = log
        .update(
            id,
            &request(
                1,
                "Expanded description",
                TaskList::NextAction,
                TaskState::Pending,
                labels(&[("project", "gtd")]),
            ),
        )
        .unwrap();
    assert_eq!(moved.event.event_type, TaskEventType::Updated);
    assert_eq!(moved.event.task().metadata.revision, 2);
    assert_eq!(moved.event.description, "Expanded description");
    assert_eq!(moved.event.prev_description.as_deref(), Some("Initial description"));

    let conflict = log
        .update(
            id,
            &request(1, "Stale update", TaskList::NextAction, TaskState::Doing, Labels::new()),
        )
        .unwrap_err();
    assert!(matches!(
        conflict,
        StoreError::RevisionConflict { expected_revision: 1, current_revision: 2, .. }
    ));
    assert_eq!(log.revision_state().current_revision, 2);

    let updated = log
        .update(
            id,
            &request(
                2,
                "Expanded description",
                TaskList::NextAction,
                TaskState::Doing,
                Labels::new(),
            ),
        )
        .unwrap();
    assert_eq!(updated.event.event_type, TaskEventType::Updated);
    assert!(updated.event.labels.is_empty());
    assert_eq!(updated.event.prev_labels.unwrap().get("project"), Some("gtd"));
}

#[test]
fn description_can_change_without_a_state_change_and_no_op_is_rejected() {
    let mut log = EventLog::new();
    let created = create(&mut log, "Short");
    let id = created.event.task_id;

    let edited = log
        .update(
            id,
            &request(
                created.event.revision,
                "Short, with supporting details",
                TaskList::Inbox,
                TaskState::Pending,
                Labels::new(),
            ),
        )
        .unwrap();
    assert_eq!(edited.event.description, "Short, with supporting details");
    assert_eq!(edited.event.prev_description.as_deref(), Some("Short"));

    let error = log
        .update(
            id,
            &request(
                edited.event.revision,
                &edited.event.description,
                edited.event.list_name,
                edited.event.state,
                edited.event.labels.clone(),
            ),
        )
        .unwrap_err();
    assert!(matches!(error, StoreError::Validation(_)));
    assert_eq!(log.revision_state().current_revision, edited.event.revision);
}

#[test]
fn list_uses_only_latest_events_and_filters_labels() {
    let mut log = EventLog::new();
    let created = create(&mut log, "Filtered task");
    let id = created.event.task_id;
    update_state(
        &mut log,
        id,
        TaskList::NextAction,
        TaskState::Pending,
        Some(labels(&[("project", "gtd"), ("place", "home")])),
    )
    .unwrap();
    update_state(&mut log, id, TaskList::NextAction, TaskState::Doing, None).unwrap();

    let inbox = log.list(&TaskFilter { list: Some(TaskList::Inbox), ..TaskFilter::default() });
    assert!(inbox.tasks.is_empty());

    let stale_state = log.list(&TaskFilter {
        list: Some(TaskList::NextAction),
        state: Some(TaskState::Pending),
        ..TaskFilter::default()
    });
    assert!(stale_state.tasks.is_empty());

    let result = log.list(&TaskFilter {
        list: Some(TaskList::NextAction),
        state: Some(TaskState::Doing),
        labels: labels(&[("project", "gtd")]),
    });
    assert_eq!(result.revision, 3);
    assert_eq!(result.tasks.len(), 1);
}

#[test]
fn list_loose_scan_returns_one_latest_event_for_each_task() {
    let mut log = EventLog::new();
    let first = create(&mut log, "First").event.task_id;
    let second = create(&mut log, "Second").event.task_id;
    let third = create(&mut log, "Third").event.task_id;

    update_state(&mut log, first, TaskList::Inbox, TaskState::Doing, None).unwrap();
    update_state(&mut log, second, TaskList::NextAction, TaskState::Pending, None).unwrap();

    let result = log.list(&TaskFilter::default());
    assert_eq!(result.revision, 5);
    assert_eq!(result.tasks.len(), 3);
    let place = |id: TaskId| {
        result
            .tasks
            .iter()
            .find(|task| task.metadata.id == id)
            .map(|task| (task.list, task.state))
    };
    assert_eq!(place(first), Some((TaskList::Inbox, TaskState::Doing)));
    assert_eq!(place(second), Some((TaskList::NextAction, TaskState::Pending)));
    assert_eq!(place(third), Some((TaskList::Inbox, TaskState::Pending)));
}

#[test]
fn invalid_transition_does_not_append_an_event() {
    let mut log = EventLog::new();
    let created = create(&mut log, "Not ready");
    let error = update_state(
        &mut log,
        created.event.task_id,
        TaskList::Archive,
        TaskState::Done,
        None,
    )
    .unwrap_err();
    assert!(matches!(error, StoreError::Conflict(_)));
    assert_eq!(log.revision_state().current_revision, 1);
}

#[test]
fn watch_replays_committed_events_in_revision_order() {
    let mut log = EventLog::new();
    let first = create(&mut log, "First");
    let second = create(&mut log, "Second");
    update_state(&mut log, first.event.task_id, TaskList::Inbox, TaskState::Doing, None).unwrap();

    let events = log.events_from(1, 100).unwrap();
    assert_eq!(
        events.iter().map(|event| event.task.metadata.revision).collect::<Vec<_>>(),
        vec![1, 2, 3]
    );
    assert_eq!(events[0].task.metadata.id, first.event.task_id);
    assert_eq!(events[1].task.metadata.id, second.event.task_id);
    assert!(events[0].prev_task.is_none());
    let prev_task = events[2].prev_task.as_ref().unwrap();
    assert_eq!(prev_task.metadata.id, first.event.task_id);
    assert_eq!(prev_task.metadata.revision, 1);
    assert_eq!(prev_task.metadata.created_at, first.event.created_at);
    assert_eq!(prev_task.metadata.updated_at, first.event.updated_at);
    assert_eq!(prev_task.description, "First");
    assert_eq!(prev_task.state, TaskState::Pending);
}

#[test]
fn watch_builds_prev_task_without_loading_prev_revision() {
    let mut log = EventLog::new();
    let created = create(&mut log, "Self-contained event");
    let updated = update_state(
        &mut log,
        created.event.task_id,
        TaskList::Inbox,
        TaskState::Doing,
        None,
    )
    .unwrap();

    let only_last = vec![log.events()[1].clone()];
    let log = EventLog::from_rows(only_last, log.revision_state()).unwrap();
    let events = log.events_from(updated.event.revision, 1).unwrap();
    let prev_task = events[0].prev_task.as_ref().unwrap();
    assert_eq!(prev_task.metadata.revision, created.event.revision);
    assert_eq!(prev_task.metadata.created_at, created.event.created_at);
    assert_eq!(prev_task.metadata.updated_at, created.event.updated_at);
    assert_eq!(prev_task.description, created.event.description);
}

#[test]
fn successive_writers_get_distinct_ids_and_revisions() {
    let mut log = EventLog::new();
    let first = create(&mut log, "First writer").event;
    let second = create(&mut log, "Second writer").event;
    assert_ne!(first.task_id, second.task_id);
    let mut revisions = [first.revision, second.revision];
    revisions.sort_unstable();
    assert_eq!(revisions, [1, 2]);
}

#[test]
fn a_log_made_of_its_events_reads_the_same() {
    let mut log = EventLog::new();
    let task_id = create(&mut log, "Persisted event").event.task_id;
    let stored: Vec<TaskEvent> = log.events().iter().map(|event| event.clone()).collect();
    let log = EventLog::from_rows(stored, log.revision_state()).unwrap();
    let events = log.events_from(1, 100).unwrap();
    assert_eq!(events.len(), 1);
    assert_eq!(events[0].task.metadata.id, task_id);
    assert!(events[0].prev_task.is_none());
}

#[test]
fn compaction_keeps_anchor_and_never_reuses_revision() {
    let mut log = EventLog::new();
    let created = create(&mut log, "Compact me");
    let id = created.event.task_id;
    update_state(&mut log, id, TaskList::Inbox, TaskState::Doing, None).unwrap();
    update_state(&mut log, id, TaskList::Archive, TaskState::Trash, None).unwrap();

    let state = log.compact(2).unwrap();
    assert_eq!(state.scheduled_revision, 2);
    assert_eq!(state.finished_revision, 2);
    assert!(matches!(log.events_from(2, 100).unwrap_err(), StoreError::Compacted { .. }));
    assert_eq!(log.events_from(3, 100).unwrap().len(), 1);
    assert_eq!(log.get(id).unwrap().state, TaskState::Trash);

    let next = create(&mut log, "After compact");
    assert_eq!(next.event.revision, 4);
}

#[test]
fn every_refused_state_change_names_both_places() {
    let error = validate_state_change(
        ID,
        TaskList::WaitingFor,
        TaskState::Pending,
        TaskList::NextAction,
        TaskState::Pending,
    )
    .unwrap_err();
    assert_eq!(
        error.to_string(),
        "task state change conflict: cannot update task 019d0000-0000-7000-8000-000000000001 from waiting-for/pending to next-action/pending"
    );
    assert_eq!(error.status(), 409);
}

#[test]
fn the_table_of_state_changes_is_complete() {
    let lists = [Inbox, NextAction, WaitingFor, SomedayMaybe, Archive];
    let states = [Pending, Doing, Done, Trash];
    let mut allowed = 0;
    for from_list in lists {
        for from_state in states {
            for to_list in lists {
                for to_state in states {
                    let ok = validate_state_change(ID, from_list, from_state, to_list, to_state)
                        .is_ok();
                    let same = (from_list, from_state) == (to_list, to_state);
                    let expected = same
                        || (from_list != Archive && (to_list, to_state) == (Archive, Trash))
                        || (from_list != Archive
                            && from_state == Doing
                            && (to_list, to_state) == (Archive, Done))
                        || matches!(
                            (from_list, from_state, to_list, to_state),
                            (Inbox, Pending, Inbox, Doing)
                                | (NextAction, Pending, NextAction, Doing)
                                | (Inbox, Pending, NextAction, Pending)
                                | (Inbox, Pending, WaitingFor, Pending)
                                | (Inbox, Pending, SomedayMaybe, Pending)
                                | (NextAction, Pending, SomedayMaybe, Pending)
                                | (NextAction, Doing, SomedayMaybe, Pending)
                                | (SomedayMaybe, Pending, NextAction, Pending)
                        );
                    assert_eq!(ok, expected);
                    allowed += usize::from(ok);
                }
            }
        }
    }
    assert_eq!(allowed, 20 + 16 + 4 + 8);
}

#[test]
fn descriptions_are_trimmed_and_bounded() {
    let mut log = EventLog::new();
    assert_eq!(
        log.create(ID, " \u{3000}\n").unwrap_err().to_string(),
        "invalid request: task description must not be empty"
    );
    assert_eq!(log.revision_state().current_revision, 0);
    assert_eq!(log.create(ID, "\t tidy \u{a0}").unwrap().event.description, "tidy");
    let longest = "é".repeat(10_000);
    assert!(validate_description(&longest).is_ok());
    assert_eq!(
        validate_description(&format!("{longest}x")).unwrap_err().to_string(),
        "invalid request: task description must not exceed 10,000 characters"
    );
}

#[test]
fn labels_are_normalized_and_the_first_fault_is_named() {
    let tidy = normalize_labels(&labels(&[(" b ", " 2 "), ("a", "1"), ("b", "3")])).unwrap();
    assert!(tidy.same(&labels(&[("a", "1"), ("b", "3")])));
    assert_eq!(
        normalize_labels(&labels(&[("a:b", "1"), ("z", " ")])).unwrap_err().to_string(),
        "invalid request: label key 'a:b' must not contain ':' or '='"
    );
    assert_eq!(
        normalize_labels(&labels(&[("a", " "), ("b=", "1")])).unwrap_err().to_string(),
        "invalid request: label keys and values must not be empty"
    );
}

#[test]
fn update_checks_come_in_order() {
    let mut log = EventLog::new();
    let missing = log
        .update(ID, &request(1, "", TaskList::Inbox, TaskState::Pending, Labels::new()))
        .unwrap_err();
    assert_eq!(
        missing.to_string(),
        "task 019d0000-0000-7000-8000-000000000001 was not found"
    );
    assert_eq!(missing.status(), 404);
    log.create(ID, "Ordered").unwrap();
    let stale = log
        .update(ID, &request(9, "", TaskList::Archive, TaskState::Done, Labels::new()))
        .unwrap_err();
    assert_eq!(
        stale.to_string(),
        "task 019d0000-0000-7000-8000-000000000001 revision conflict: expected revision 9, current revision 1"
    );
    let place = log
        .update(ID, &request(1, " ", TaskList::Archive, TaskState::Done, labels(&[("=", "x")])))
        .unwrap_err();
    assert!(matches!(place, StoreError::Conflict(_)));
    let empty = log
        .update(ID, &request(1, " ", TaskList::Inbox, TaskState::Doing, labels(&[("=", "x")])))
        .unwrap_err();
    assert_eq!(empty.to_string(), "invalid request: task description must not be empty");
    let label = log
        .update(ID, &request(1, "x", TaskList::Inbox, TaskState::Doing, labels(&[("=", "x")])))
        .unwrap_err();
    assert_eq!(
        label.to_string(),
        "invalid request: label key '=' must not contain ':' or '='"
    );
    assert_eq!(log.events().len(), 1);
}

#[test]
fn the_last_update_never_goes_back_in_time() {
    let mut log = EventLog::new();
    let late = Timestamp { seconds: 100, nanos: 5 };
    let early = Timestamp { seconds: 50, nanos: 0 };
    log.create_at(ID, "Timed", late).unwrap();
    let event = log
        .update_at(
            ID,
            &request(1, "Timed again", TaskList::Inbox, TaskState::Pending, Labels::new()),
            early,
        )
        .unwrap()
        .event;
    assert_eq!(event.updated_at, late);
    assert_eq!(event.created_at, late);
    assert_eq!(event.prev_updated_at, Some(late));
}

#[test]
fn the_present_time_is_recorded() {
    let mut log = EventLog::new();
    let event = log.create(ID, "Now").unwrap().event;
    let now = chrono::Utc::now().timestamp();
    assert!((now - 60..=now).contains(&event.created_at.seconds));
    assert!(event.created_at.nanos < 1_000_000_000);
}

#[test]
fn tasks_are_listed_by_creation_then_by_identifier() {
    let mut log = EventLog::new();
    let moment = |seconds| Timestamp { seconds, nanos: 0 };
    log.create_at(3, "c", moment(2)).unwrap();
    log.create_at(2, "b", moment(2)).unwrap();
    log.create_at(9, "a", moment(1)).unwrap();
    let ids: Vec<TaskId> =
        log.list(&TaskFilter::default()).tasks.iter().map(|task| task.metadata.id).collect();
    assert_eq!(ids, vec![9, 2, 3]);
}

#[test]
fn a_taken_identifier_is_not_accepted() {
    let mut log = EventLog::new();
    assert_eq!(log.accept_candidate(ID), Some(ID));
    log.create(ID, "Taken").unwrap();
    assert_eq!(log.accept_candidate(ID), None);
    assert!(log.contains_task(ID));
    assert!(!log.contains_task(ID + 1));
    let fresh = log.fresh_id().unwrap();
    assert_eq!(version(fresh), 7);
    assert_ne!(fresh, log.fresh_id().unwrap());
}

#[test]
fn a_log_is_made_only_of_ascending_revisions_and_ordered_watermarks() {
    let mut log = EventLog::new();
    create(&mut log, "One");
    create(&mut log, "Two");
    let state = log.revision_state();
    let (one, two) = (log.events()[0].clone(), log.events()[1].clone());
    assert!(EventLog::from_rows(vec![one.clone(), two.clone()], state).is_some());
    assert!(EventLog::from_rows(vec![two.clone(), one.clone()], state).is_none());
    let low = RevisionState { current_revision: 1, ..state };
    assert!(EventLog::from_rows(vec![one.clone(), two], low).is_none());
    let crossed = RevisionState { finished_revision: 1, ..state };
    assert!(EventLog::from_rows(vec![one], crossed).is_none());
}

#[test]
fn nothing_is_appended_beyond_the_last_revision() {
    let full = RevisionState {
        current_revision: i64::MAX,
        scheduled_revision: 0,
        finished_revision: 0,
    };
    let mut log = EventLog::from_rows(vec![], full).unwrap();
    assert_eq!(
        log.create(ID, "One too many").unwrap_err().to_string(),
        "database error: database or disk is full"
    );
}

#[test]
fn compaction_requests_are_checked() {
    let mut log = EventLog::new();
    create(&mut log, "One");
    create(&mut log, "Two");
    assert_eq!(
        log.compact(3).unwrap_err().to_string(),
        "revision 3 is ahead of current revision 2"
    );
    assert_eq!(log.compact(2).unwrap().finished_revision, 2);
    assert_eq!(
        log.compact(1).unwrap_err().to_string(),
        "task state change conflict: compact revision cannot move backward from 2 to 1"
    );
    assert_eq!(log.compact(2).unwrap().scheduled_revision, 2);
    assert_eq!(log.events().len(), 2);
}

#[test]
fn an_interrupted_compaction_is_taken_up_again() {
    let mut log = EventLog::new();
    let id = create(&mut log, "Versions").event.task_id;
    for n in 0..3 {
        log.update(
            id,
            &request(
                n + 1,
                &format!("Version {n}"),
                TaskList::Inbox,
                TaskState::Pending,
                Labels::new(),
            ),
        )
        .unwrap();
    }
    log.schedule_compaction(4).unwrap();
    assert_eq!(log.revision_state().finished_revision, 0);
    assert_eq!(pending_compaction(log.revision_state()), Some(4));
    assert_eq!(log.events().len(), 4);
    log.resume_pending_compaction();
    assert_eq!(log.revision_state().finished_revision, 4);
    assert_eq!(log.events().len(), 1);
    assert_eq!(log.get(id).unwrap().description, "Version 2");
    assert_eq!(pending_compaction(log.revision_state()), None);
    log.resume_pending_compaction();
    assert_eq!(log.events().len(), 1);
}

#[test]
fn garbage_is_collected_in_steps_of_a_thousand() {
    let mut log = EventLog::new();
    let id = create(&mut log, "Deep").event.task_id;
    for n in 0..1_500_i64 {
        log.update(
            id,
            &request(
                n + 1,
                &format!("Version {n}"),
                TaskList::Inbox,
                TaskState::Pending,
                Labels::new(),
            ),
        )
        .unwrap();
    }
    log.schedule_compaction(1_501).unwrap();
    let first = log.collect_garbage(1_501);
    assert_eq!(first.len(), 1_000);
    assert_eq!((first[0], first[999]), (1, 1_000));
    assert_eq!(log.collect_garbage(1_501).len(), 500);
    assert_eq!(log.collect_garbage(1_501).len(), 0);
    log.finish_compaction(1_501);
    assert_eq!(log.events().len(), 1);
    assert_eq!(log.events()[0].revision, 1_501);
}

#[test]
fn an_event_without_its_previous_state_is_reported() {
    let mut log = EventLog::new();
    let id = create(&mut log, "Torn").event.task_id;
    update_state(&mut log, id, TaskList::Inbox, TaskState::Doing, None).unwrap();
    let torn = TaskEvent { prev_labels: None, ..log.events()[1].clone() };
    let log = EventLog::from_rows(vec![torn], log.revision_state()).unwrap();
    assert_eq!(
        log.events_from(1, 10).unwrap_err().to_string(),
        "database error: task event 2 has an incomplete previous state"
    );
}

#[test]
fn readings_are_limited_and_start_where_they_can() {
    let mut log = EventLog::new();
    for n in 0..5 {
        create(&mut log, &format!("Task {n}"));
    }
    assert_eq!(log.events_from(1, 0).unwrap().len(), 1);
    assert_eq!(log.events_from(2, 3).unwrap().len(), 3);
    assert_eq!(log.events_from(6, 10).unwrap().len(), 0);
    assert_eq!(
        log.events_from(7, 10).unwrap_err().to_string(),
        "revision 7 is ahead of current revision 5"
    );
    assert_eq!(
        log.events_from(0, 10).unwrap_err().to_string(),
        "revision 0 has been compacted at revision 0"
    );
}

fn versions(log: &mut EventLog, count: i64) -> TaskId {
    let created = create(log, "Version 0").event;
    let mut revision = created.revision;
    for n in 1..count {
        revision = log
            .update(
                created.task_id,
                &request(
                    revision,
                    &format!("Version {n}"),
                    TaskList::Inbox,
                    TaskState::Pending,
                    Labels::new(),
                ),
            )
            .unwrap()
            .event
            .revision;
    }
    created.task_id
}

fn copy(log: &EventLog) -> EventLog {
    let events = log.events().iter().map(|event| event.clone()).collect();
    EventLog::from_rows(events, log.revision_state()).unwrap()
}

#[test]
fn compacting_in_stages_is_compacting_once() {
    let mut log = EventLog::new();
    versions(&mut log, 4);
    versions(&mut log, 3);
    let mut staged = copy(&log);
    staged.compact(3).unwrap();
    staged.compact(3).unwrap();
    staged.compact(6).unwrap();
    log.compact(6).unwrap();
    assert_eq!(log.events(), staged.events());
    let revisions: Vec<i64> = log.events().iter().map(|event| event.revision).collect();
    assert_eq!(revisions, vec![4, 6, 7]);
}

#[test]
fn compaction_changes_no_task_and_no_list() {
    let mut log = EventLog::new();
    let first = versions(&mut log, 3);
    let second = versions(&mut log, 2);
    let before = log.list(&TaskFilter::default());
    let read = (log.get(first).unwrap(), log.get(second).unwrap());
    let open = log.events_from(5, 10).unwrap();
    log.compact(4).unwrap();
    assert_eq!(log.list(&TaskFilter::default()), before);
    assert_eq!((log.get(first).unwrap(), log.get(second).unwrap()), read);
    assert_eq!(log.events_from(5, 10).unwrap(), open);
    assert_eq!(log.revision_state().current_revision, 5);
}

#[test]
fn the_events_of_a_task_form_a_chain() {
    let mut log = EventLog::new();
    let id = versions(&mut log, 4);
    versions(&mut log, 2);
    let chain: Vec<&TaskEvent> =
        log.events().iter().filter(|event| event.task_id == id).collect();
    assert_eq!(chain.iter().filter(|event| event.prev_revision.is_none()).count(), 1);
    for pair in chain.windows(2) {
        assert_eq!(pair[1].prev_revision, Some(pair[0].revision));
        assert_eq!(pair[1].prev_task(), Some(pair[0].task()));
        assert!(!pair[1].updated_at.before(pair[0].updated_at));
    }
}

#[test]
fn narrowed_events_give_the_same_list() {
    let mut log = EventLog::new();
    let moved = versions(&mut log, 2);
    update_state(&mut log, moved, TaskList::NextAction, TaskState::Pending, None).unwrap();
    versions(&mut log, 2);
    let filter = TaskFilter { list: Some(TaskList::Inbox), ..TaskFilter::default() };
    let last = log.events()[log.events().len() - 1].clone();
    let narrowed = EventLog::from_rows(vec![last], log.revision_state()).unwrap();
    assert_eq!(narrowed.list(&filter), log.list(&filter));

    let batch = log.events()[1..3].iter().map(|event| event.clone()).collect();
    let narrowed = EventLog::from_rows(batch, log.revision_state()).unwrap();
    assert_eq!(narrowed.events_from(2, 2).unwrap(), log.events_from(2, 2).unwrap());
}

#[test]
fn normalized_labels_stay_as_they_are() {
    let once = normalize_labels(&labels(&[(" a", "1 "), ("b", "\t2")])).unwrap();
    let twice = normalize_labels(&once).unwrap();
    assert!(once.same(&twice));
    assert!(once.same(&labels(&[("a", "1"), ("b", "2")])));
}

#[test]
fn a_task_is_picked_only_while_it_is_pending_as_a_next_action() {
    let mut log = EventLog::new();
    let id = create(&mut log, "Pick me").event.task_id;
    assert!(update_state(&mut log, id, TaskList::NextAction, TaskState::Doing, None).is_err());
    update_state(&mut log, id, TaskList::NextAction, TaskState::Pending, None).unwrap();
    update_state(&mut log, id, TaskList::NextAction, TaskState::Doing, None).unwrap();
    assert!(update_state(&mut log, id, TaskList::NextAction, TaskState::Doing, None).is_err());
    assert_eq!(log.revision_state().current_revision, 3);
}
