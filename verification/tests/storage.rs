use gtd::compaction::superseded_batch;
use gtd::domain::{
    Task, TaskEvent, TaskEventType, TaskId, TaskList, TaskMetadata, TaskState, Timestamp,
};
use gtd::labels::Labels;
use gtd::numbers::{parse_integer, signed_text, unsigned_text};
use gtd::replay::clamp_limit;
use gtd::rows::{new_event_row, read_stamp, task_key, NewTaskEventRow, TaskEventRow};
use gtd::text::{
    is_whitespace, join_all, precedes, split_all, split_once_at, starts_with, trim,
    trim_end_matches,
};

const ID: TaskId = 0x019c_6f7e_7f21_7a37_8cb6_91a4_bc5f_bef1;

fn at(seconds: i64) -> Timestamp {
    Timestamp { seconds, nanos: 7 }
}

fn task(revision: i64, description: &str, labels: &[(&str, &str)]) -> Task {
    let mut map = Labels::new();
    for (key, value) in labels {
        map.insert((*key).to_owned(), (*value).to_owned());
    }
    Task {
        metadata: TaskMetadata { id: ID, revision, created_at: at(1), updated_at: at(revision) },
        description: description.to_owned(),
        list: TaskList::NextAction,
        state: TaskState::Doing,
        labels: map,
    }
}

fn row() -> NewTaskEventRow {
    let before = task(4, "before", &[]);
    let after = task(5, "after \"quoted\"", &[("z", "1"), ("a", "line\nbreak")]);
    new_event_row(TaskEventType::Updated, &after, Some(4), Some(&before)).unwrap()
}

#[test]
fn a_row_holds_canonical_texts() {
    let row = row();
    assert_eq!(row.task_id, "019c6f7e-7f21-7a37-8cb6-91a4bc5fbef1");
    assert_eq!(row.event_type, "task.updated");
    assert_eq!(row.list_name, "next-action");
    assert_eq!(row.state, "doing");
    assert_eq!(row.labels, "{\"a\":\"line\\nbreak\",\"z\":\"1\"}");
    assert_eq!(row.prev_labels.as_deref(), Some("{}"));
    assert_eq!(row.prev_revision, Some(4));
    assert_eq!(row.prev_updated_at, Some(at(4)));
}

#[test]
fn a_stored_row_reads_back_as_the_event_that_was_written() {
    let event = TaskEvent::try_from(TaskEventRow { revision: 5, values: row() }).unwrap();
    assert_eq!(event.task(), task(5, "after \"quoted\"", &[("z", "1"), ("a", "line\nbreak")]));
    assert_eq!(event.prev_task(), Some(task(4, "before", &[])));
    let created = new_event_row(TaskEventType::Created, &task(0, "new", &[]), None, None).unwrap();
    assert!(created.prev_labels.is_none());
    let event = TaskEvent::try_from(TaskEventRow { revision: 9, values: created }).unwrap();
    assert_eq!(event.revision, 9);
    assert!(event.prev_task().is_none());
}

#[test]
fn identifiers_are_read_in_other_spellings_too() {
    let values = NewTaskEventRow {
        task_id: "{019C6F7E-7F21-7A37-8CB6-91A4BC5FBEF1}".to_owned(),
        ..row()
    };
    assert_eq!(TaskEvent::try_from(TaskEventRow { revision: 1, values }).unwrap().task_id, ID);
}

#[test]
fn faulty_rows_are_refused() {
    let refused = |values: NewTaskEventRow| {
        TaskEvent::try_from(TaskEventRow { revision: 1, values }).unwrap_err().to_string()
    };
    assert_eq!(
        refused(NewTaskEventRow { event_type: "task.moved".to_owned(), ..row() }),
        "database error: unknown task event type 'task.moved'"
    );
    assert_eq!(
        refused(NewTaskEventRow { state: "idle".to_owned(), ..row() }),
        "database error: unknown state 'idle'; expected pending, doing, done, or trash"
    );
    assert!(refused(NewTaskEventRow { task_id: "nobody".to_owned(), ..row() })
        .starts_with("database error: "));
    for labels in ["", "[]", "{\"a\":1}"] {
        assert!(refused(NewTaskEventRow { labels: labels.to_owned(), ..row() })
            .starts_with("database error: "));
    }
    assert!(refused(NewTaskEventRow { prev_labels: Some("null".to_owned()), ..row() })
        .starts_with("database error: "));
    assert_eq!(
        refused(NewTaskEventRow { prev_list_name: Some("gone".to_owned()), ..row() }),
        "database error: unknown list 'gone'; expected in, next-action, waiting-for, someday-maybe, or archive"
    );
}

#[test]
fn superseded_events_are_found_below_the_target() {
    let rows = vec![(1, 10), (2, 20), (3, 10), (4, 10), (5, 20), (6, 30)];
    assert_eq!(superseded_batch(&rows, 6), vec![1, 2, 3]);
    assert_eq!(superseded_batch(&rows, 4), vec![1, 3]);
    assert_eq!(superseded_batch(&rows, 2), Vec::<i64>::new());
    assert_eq!(superseded_batch(&rows, 0), Vec::<i64>::new());
    let low: Vec<(i64, TaskId)> = rows.iter().copied().filter(|row| row.0 <= 4).collect();
    assert_eq!(superseded_batch(&low, 4), superseded_batch(&rows, 4));
    let many: Vec<(i64, TaskId)> = (1..=1_200).map(|revision| (revision, 1)).collect();
    assert_eq!(superseded_batch(&many, 1_200), (1..=1_000).collect::<Vec<i64>>());
}

#[test]
fn stamps_are_read_from_stored_keys() {
    assert_eq!(task_key(ID), "019c6f7e-7f21-7a37-8cb6-91a4bc5fbef1");
    assert_eq!(read_stamp(7, &task_key(ID)), Ok((7, ID)));
    assert!(read_stamp(7, "nobody").unwrap_err().to_string().starts_with("database error: "));
}

#[test]
fn readings_hold_between_one_and_a_thousand_events() {
    let limits: Vec<i64> =
        [i64::MIN, 0, 1, 256, 1_000, 1_001].iter().map(|limit| clamp_limit(*limit)).collect();
    assert_eq!(limits, vec![1, 1, 1, 256, 1_000, 1_000]);
}

#[test]
fn white_space_is_that_of_unicode() {
    for code in 0..=0x0010_ffff_u32 {
        if let Some(c) = char::from_u32(code) {
            assert_eq!(is_whitespace(c), c.is_whitespace());
        }
    }
    for text in ["", " ", " a b\u{2003}", "\u{feff}a", "\u{85}x\u{1680}"] {
        assert_eq!(trim(text), text.trim());
    }
}

#[test]
fn texts_are_cut_and_joined() {
    assert_eq!(trim_end_matches("a//", '/'), "a");
    assert_eq!(split_once_at("a=b=c", '='), Some(("a", "b=c")));
    assert_eq!(split_once_at("abc", '='), None);
    assert_eq!(split_all(",a,,b", ','), vec!["", "a", "", "b"]);
    assert_eq!(split_all("", ','), vec![""]);
    assert_eq!(join_all(&split_all("x,y,z", ','), ", "), "x, y, z");
    assert_eq!(join_all(&Vec::new(), ", "), "");
    assert!(starts_with("http://x", "http://"));
    assert!(!starts_with("http:/", "http://"));
    assert!(precedes("a", "b"));
    assert!(precedes("Z", "a"));
    assert!(precedes("a", "aa"));
    assert!(!precedes("a", "a"));
    assert!(precedes("\u{ffff}", "\u{10000}"));
}

#[test]
fn numbers_are_written_and_read() {
    for n in [0, 7, -1, 42, i64::MAX, i64::MIN] {
        assert_eq!(signed_text(n), n.to_string());
        assert_eq!(parse_integer(&n.to_string().into_bytes()), Some(n));
    }
    assert_eq!(unsigned_text(u64::MAX), u64::MAX.to_string());
    for text in ["+7", "-0", "007", "9223372036854775808", "-9223372036854775809", "1 ", "", "+-1"] {
        assert_eq!(parse_integer(&text.as_bytes().to_vec()), text.parse::<i64>().ok());
    }
}
