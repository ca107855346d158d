use gtd::domain::{
    parse_label, Task, TaskEdit, TaskEvent, TaskEventType, TaskFilter, TaskList, TaskMetadata,
    TaskState, TaskWatchEvent, Timestamp,
};
use gtd::labels::Labels;

fn labels(pairs: &[(&str, &str)]) -> Labels {
    let mut labels = Labels::new();
    for (key, value) in pairs {
        labels.insert((*key).to_owned(), (*value).to_owned());
    }
    labels
}

fn at(seconds: i64) -> Timestamp {
    Timestamp { seconds, nanos: 0 }
}

#[test]
fn list_aliases_parse_to_canonical_names() {
    assert_eq!("inbox".parse(), Ok(TaskList::Inbox));
    assert_eq!("next".parse(), Ok(TaskList::NextAction));
    assert_eq!(TaskList::SomedayMaybe.to_string(), "someday-maybe");
}

#[test]
fn event_type_uses_stable_names() {
    assert_eq!(TaskEventType::Updated.as_str(), "task.updated");
    assert_eq!("task.updated".parse(), Ok(TaskEventType::Updated));
}

#[test]
fn watch_filter_matches_both_sides_of_a_change() {
    let now = at(1_700_000_000);
    let id = 0x019d_0000_0000_7000_8000_0000_0000_0001;
    let before = Task {
        metadata: TaskMetadata { id, revision: 1, created_at: now, updated_at: now },
        description: "Move out of the filtered set".to_owned(),
        list: TaskList::NextAction,
        state: TaskState::Doing,
        labels: labels(&[("project", "gtd")]),
    };
    let after = Task {
        metadata: TaskMetadata { revision: 2, ..before.metadata },
        list: TaskList::Archive,
        state: TaskState::Done,
        ..before.clone()
    };
    let filter = TaskFilter {
        list: Some(TaskList::NextAction),
        state: Some(TaskState::Doing),
        labels: labels(&[("project", "gtd")]),
    };
    let event = TaskWatchEvent {
        event_type: TaskEventType::Updated,
        task: after,
        prev_task: Some(before),
    };

    assert!(event.matches_filter(&filter));
    assert!(!filter.matches(&event.task));
}

#[test]
fn every_list_name_and_alias_is_read() {
    let names = [
        ("in", TaskList::Inbox),
        ("inbox", TaskList::Inbox),
        ("next-action", TaskList::NextAction),
        ("next", TaskList::NextAction),
        ("waiting-for", TaskList::WaitingFor),
        ("waiting", TaskList::WaitingFor),
        ("someday-maybe", TaskList::SomedayMaybe),
        ("someday", TaskList::SomedayMaybe),
        ("maybe", TaskList::SomedayMaybe),
        ("archive", TaskList::Archive),
    ];
    for (name, list) in names {
        assert_eq!(name.parse(), Ok(list));
        assert_eq!(list.as_str().parse(), Ok(list));
    }
    assert_eq!(
        "nowhere".parse::<TaskList>(),
        Err("unknown list 'nowhere'; expected in, next-action, waiting-for, someday-maybe, or archive".to_owned())
    );
    assert_eq!(
        TaskList::active(),
        [TaskList::Inbox, TaskList::NextAction, TaskList::WaitingFor, TaskList::SomedayMaybe]
    );
}

#[test]
fn every_state_and_event_name_is_read() {
    for state in [TaskState::Pending, TaskState::Doing, TaskState::Done, TaskState::Trash] {
        assert_eq!(state.as_str().parse(), Ok(state));
        assert_eq!(state.to_string(), state.as_str());
    }
    assert_eq!(
        "idle".parse::<TaskState>(),
        Err("unknown state 'idle'; expected pending, doing, done, or trash".to_owned())
    );
    assert_eq!("task.created".parse(), Ok(TaskEventType::Created));
    assert_eq!(
        "task.deleted".parse::<TaskEventType>(),
        Err("unknown task event type 'task.deleted'".to_owned())
    );
}

#[test]
fn labels_are_read_from_text() {
    let pair = |k: &str, v: &str| Ok((k.to_owned(), v.to_owned()));
    assert_eq!(parse_label("project:gtd"), pair("project", "gtd"));
    assert_eq!(parse_label(" project = gtd "), pair("project", "gtd"));
    assert_eq!(parse_label("when:10:30"), pair("when", "10:30"));
    assert_eq!(parse_label("url=http://x"), pair("url", "http://x"));
    assert_eq!(
        parse_label("project"),
        Err("invalid label 'project'; expected key:value".to_owned())
    );
    assert_eq!(parse_label(":gtd"), Err("label key and value must not be empty".to_owned()));
    assert_eq!(parse_label("project: "), Err("label key and value must not be empty".to_owned()));
    assert_eq!(
        parse_label("a:b=c"),
        Err("label key 'a:b' must not contain ':' or '='".to_owned())
    );
}

#[test]
fn label_maps_keep_one_value_per_key_in_key_order() {
    let mut map = labels(&[("b", "2"), ("a", "1"), ("b", "3")]);
    assert_eq!(map.len(), 2);
    assert_eq!(map.get("b"), Some("3"));
    assert_eq!(map.get("c"), None);
    assert_eq!(
        map.entries(),
        &vec![("a".to_owned(), "1".to_owned()), ("b".to_owned(), "3".to_owned())]
    );
    map.extend(&labels(&[("a", "9"), ("c", "4")]));
    assert!(map.same(&labels(&[("c", "4"), ("b", "3"), ("a", "9")])));
    assert!(!map.same(&labels(&[("c", "4"), ("b", "3")])));
    assert!(Labels::new().is_empty());
}

#[test]
fn moments_are_ordered_by_second_and_nanosecond() {
    let early = Timestamp { seconds: 5, nanos: 1 };
    let late = Timestamp { seconds: 5, nanos: 2 };
    assert!(early.before(late));
    assert!(!late.before(early));
    assert_eq!(early.max(late), late);
    assert_eq!(at(6).max(late), at(6));
}

#[test]
fn an_event_gives_both_tasks_from_its_own_fields() {
    let event = TaskEvent {
        revision: 7,
        task_id: 11,
        prev_revision: Some(4),
        event_type: TaskEventType::Updated,
        description: "after".to_owned(),
        list_name: TaskList::NextAction,
        state: TaskState::Pending,
        labels: Labels::new(),
        created_at: at(1),
        updated_at: at(3),
        prev_description: Some("before".to_owned()),
        prev_list_name: Some(TaskList::Inbox),
        prev_state: Some(TaskState::Pending),
        prev_labels: Some(labels(&[("a", "1")])),
        prev_updated_at: Some(at(2)),
    };
    let task = event.task();
    assert_eq!((task.metadata.revision, task.description.as_str()), (7, "after"));
    let before = event.prev_task().unwrap();
    assert_eq!(before.metadata.revision, 4);
    assert_eq!(before.metadata.created_at, at(1));
    assert_eq!(before.metadata.updated_at, at(2));
    assert_eq!(before.description, "before");
    assert_eq!(before.labels.get("a"), Some("1"));
    let torn = TaskEvent { prev_state: None, ..event.clone() };
    assert!(torn.prev_task().is_none());
}

#[test]
fn an_empty_edit_changes_nothing() {
    let edit = TaskEdit::default();
    assert!(edit.labels.is_empty());
    assert!(edit.description.is_none());
}
