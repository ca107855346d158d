use gtd::domain::{Task, TaskId, TaskList, TaskMetadata, TaskState, Timestamp};
use gtd::labels::Labels;
use gtd::screens::{
    choose_key, cursor_column, input, list_item, place_cursor, render_choices, select_task,
    task_widget, Choosing, Editing, Key, Menu, Selecting,
};
use gtd::sessions::{
    inbox_filter, list_filter, next_actions_filter, process_inbox, review, someday_filter, Action,
    Answer, InboxSession, ReviewSession,
};

fn task(id: TaskId, list: TaskList, state: TaskState) -> Task {
    let now = Timestamp { seconds: 1, nanos: 0 };
    Task {
        metadata: TaskMetadata { id, revision: 1, created_at: now, updated_at: now },
        description: format!("Task {id}"),
        list,
        state,
        labels: Labels::new(),
    }
}

fn inbox(count: u128) -> (InboxSession, Action) {
    process_inbox((1..=count).map(|id| task(id, TaskList::Inbox, TaskState::Pending)).collect())
}

fn entered(text: &str) -> Answer {
    Answer::Entered(Some(text.to_owned()))
}

fn place(action: &Action) -> (TaskId, TaskList, TaskState) {
    match action {
        Action::Change(change) => (change.id, change.list, change.state),
        other => panic!("unexpected action {other:?}"),
    }
}

fn asked(action: Action) -> (String, Menu) {
    match action {
        Action::Ask { title, menu } => (title, menu),
        other => panic!("unexpected action {other:?}"),
    }
}

#[test]
fn an_empty_inbox_needs_no_session() {
    let (session, action) = inbox(0);
    assert_eq!(action, Action::Finish(0));
    assert!(session.task().is_none());
    assert_eq!(list_filter(TaskList::Inbox, None).list, Some(TaskList::Inbox));
}

#[test]
fn sessions_ask_for_their_tasks() {
    let filter = inbox_filter();
    assert_eq!((filter.list, filter.state), (Some(TaskList::Inbox), Some(TaskState::Pending)));
    assert!(filter.labels.is_empty());
    let filter = next_actions_filter();
    assert_eq!(
        (filter.list, filter.state),
        (Some(TaskList::NextAction), Some(TaskState::Pending))
    );
    assert!(filter.matches(&task(1, TaskList::NextAction, TaskState::Pending)));
    assert!(!filter.matches(&task(1, TaskList::NextAction, TaskState::Doing)));
    let filter = someday_filter();
    assert_eq!(
        (filter.list, filter.state),
        (Some(TaskList::SomedayMaybe), Some(TaskState::Pending))
    );
}

#[test]
fn a_task_done_right_away_is_begun_first() {
    let (mut session, action) = inbox(2);
    assert_eq!(asked(action), ("Process inbox · 1 of 2".to_owned(), Menu::Actionable));
    assert_eq!(session.task().unwrap().metadata.id, 1);
    assert_eq!(asked(session.advance(Answer::Chosen('y'))).1, Menu::NextStep);
    let action = session.advance(Answer::Chosen('d'));
    assert_eq!(place(&action), (1, TaskList::Inbox, TaskState::Doing));
    assert_eq!(asked(session.advance(Answer::Changed)).1, Menu::Outcome);
    let action = session.advance(Answer::Chosen('d'));
    assert_eq!(
        action,
        Action::Prompt {
            title: "Process inbox · 1 of 2".to_owned(),
            prompt: "Labels (comma-separated key:value; blank is fine)",
        }
    );
    let action = session.advance(entered(" a:1 , ,b=2"));
    assert!(matches!(action, Action::Prompt { prompt: "Description (blank keeps current)", .. }));
    let action = session.advance(entered(" new "));
    assert_eq!(place(&action), (1, TaskList::Archive, TaskState::Done));
    match action {
        Action::Change(change) => {
            assert_eq!(change.edit.description.as_deref(), Some(" new "));
            assert_eq!(change.edit.labels.get("a"), Some("1"));
            assert_eq!(change.edit.labels.get("b"), Some("2"));
        }
        other => panic!("unexpected action {other:?}"),
    }
    let (title, menu) = asked(session.advance(Answer::Changed));
    assert_eq!((title.as_str(), menu), ("Process inbox · 2 of 2", Menu::Actionable));
    assert_eq!(session.advance(Answer::Quit), Action::Finish(1));
}

#[test]
fn deferred_and_delegated_tasks_keep_what_is_left_blank() {
    for (key, list) in [('f', TaskList::NextAction), ('g', TaskList::WaitingFor)] {
        let (mut session, _) = inbox(1);
        session.advance(Answer::Chosen('y'));
        session.advance(Answer::Chosen(key));
        session.advance(Answer::Entered(None));
        let action = session.advance(entered("  "));
        assert_eq!(place(&action), (1, list, TaskState::Pending));
        match action {
            Action::Change(change) => {
                assert!(change.edit.labels.is_empty());
                assert!(change.edit.description.is_none());
            }
            other => panic!("unexpected action {other:?}"),
        }
        assert_eq!(session.advance(Answer::Changed), Action::Finish(1));
    }
}

#[test]
fn tasks_without_an_action_are_trashed_or_kept_for_later() {
    for (key, list, state) in [
        ('x', TaskList::Archive, TaskState::Trash),
        ('m', TaskList::SomedayMaybe, TaskState::Pending),
    ] {
        let (mut session, _) = inbox(1);
        assert_eq!(asked(session.advance(Answer::Chosen('n'))).1, Menu::Disposal);
        assert_eq!(place(&session.advance(Answer::Chosen(key))), (1, list, state));
        assert_eq!(session.advance(Answer::Changed), Action::Finish(1));
    }
}

#[test]
fn a_begun_task_can_be_trashed_or_left() {
    let (mut session, _) = inbox(1);
    session.advance(Answer::Chosen('y'));
    session.advance(Answer::Chosen('d'));
    session.advance(Answer::Changed);
    let action = session.advance(Answer::Chosen('x'));
    assert_eq!(place(&action), (1, TaskList::Archive, TaskState::Trash));

    let (mut session, _) = inbox(1);
    session.advance(Answer::Chosen('y'));
    session.advance(Answer::Chosen('d'));
    session.advance(Answer::Changed);
    assert_eq!(session.advance(Answer::Quit), Action::Finish(0));
    assert!(session.task().is_none());
}

#[test]
fn a_faulty_label_ends_the_session() {
    let (mut session, _) = inbox(1);
    session.advance(Answer::Chosen('y'));
    session.advance(Answer::Chosen('f'));
    assert_eq!(
        session.advance(entered("nope")),
        Action::Fail("invalid label 'nope'; expected key:value".to_owned())
    );
}

fn lists(next: u128, someday: u128) -> (ReviewSession, Action) {
    review(
        (1..=next).map(|id| task(id, TaskList::NextAction, TaskState::Pending)).collect(),
        (101..=100 + someday)
            .map(|id| task(id, TaskList::SomedayMaybe, TaskState::Pending))
            .collect(),
    )
}

#[test]
fn a_review_goes_through_both_lists() {
    let (mut session, action) = lists(2, 3);
    assert_eq!(asked(action), ("Review next actions · 1 of 2".to_owned(), Menu::NextAction));
    assert_eq!(
        asked(session.advance(Answer::Chosen('k'))).0,
        "Review next actions · 2 of 2"
    );
    let action = session.advance(Answer::Chosen('m'));
    assert_eq!(place(&action), (2, TaskList::SomedayMaybe, TaskState::Pending));
    assert_eq!(
        asked(session.advance(Answer::Changed)),
        ("Review someday/maybe · 1 of 3".to_owned(), Menu::Someday)
    );
    assert_eq!(session.task().unwrap().metadata.id, 101);
    let action = session.advance(Answer::Chosen('a'));
    assert_eq!(place(&action), (101, TaskList::NextAction, TaskState::Pending));
    session.advance(Answer::Changed);
    let action = session.advance(Answer::Chosen('x'));
    assert_eq!(place(&action), (102, TaskList::Archive, TaskState::Trash));
    session.advance(Answer::Changed);
    assert_eq!(session.advance(Answer::Chosen('k')), Action::Finish(5));
    assert!(session.task().is_none());
}

#[test]
fn a_review_can_be_empty_or_left() {
    assert_eq!(lists(0, 0).1, Action::Finish(0));
    assert_eq!(asked(lists(0, 1).1).1, Menu::Someday);
    let (mut session, _) = lists(1, 1);
    session.advance(Answer::Chosen('k'));
    assert_eq!(session.advance(Answer::Quit), Action::Finish(1));
}

#[test]
fn menus_answer_to_their_keys_in_either_case() {
    assert_eq!(choose_key(Menu::NextStep, Key::Char('D')), Choosing::Chosen('d'));
    assert_eq!(choose_key(Menu::NextStep, Key::Char('g')), Choosing::Chosen('g'));
    assert_eq!(choose_key(Menu::NextStep, Key::Char('Q')), Choosing::Quit);
    assert_eq!(choose_key(Menu::Actionable, Key::Esc), Choosing::Quit);
    assert_eq!(choose_key(Menu::Actionable, Key::Char('d')), Choosing::Ignored);
    assert_eq!(choose_key(Menu::Actionable, Key::Enter), Choosing::Ignored);
}

#[test]
fn menus_show_their_questions_and_choices() {
    assert_eq!(Menu::Outcome.prompt(), "Do it now · what was the outcome?");
    assert_eq!(
        render_choices(Menu::Disposal),
        vec![
            (" [x] ".to_owned(), "trash  ".to_owned()),
            (" [m] ".to_owned(), "maybe  ".to_owned()),
            (" [q] ".to_owned(), "quit  ".to_owned()),
        ]
    );
    let shown = task(1, TaskList::Inbox, TaskState::Pending);
    assert_eq!(
        task_widget(&shown),
        (
            "#00000000-0000-0000-0000-000000000001  Task 1".to_owned(),
            "in / pending".to_owned()
        )
    );
    assert_eq!(list_item(&shown), "#00000000-0000-0000-0000-000000000001 Task 1");
}

#[test]
fn texts_are_written_key_by_key() {
    let text = |value: &str, key| input(value.to_owned(), key);
    assert_eq!(text("ab", Key::Char('ä')), Editing::Writing("abä".to_owned()));
    assert_eq!(text("abä", Key::Backspace), Editing::Writing("ab".to_owned()));
    assert_eq!(text("", Key::Backspace), Editing::Writing(String::new()));
    assert_eq!(text("ab", Key::Enter), Editing::Confirmed("ab".to_owned()));
    assert_eq!(text("ab", Key::Esc), Editing::Cancelled);
    assert_eq!(text("ab", Key::Up), Editing::Writing("ab".to_owned()));
}

#[test]
fn selections_stop_at_both_ends() {
    assert_eq!(select_task(0, 3, Key::Up), Selecting::At(0));
    assert_eq!(select_task(2, 3, Key::Char('k')), Selecting::At(1));
    assert_eq!(select_task(1, 3, Key::Down), Selecting::At(2));
    assert_eq!(select_task(2, 3, Key::Char('j')), Selecting::At(2));
    assert_eq!(select_task(1, 3, Key::Enter), Selecting::Picked(1));
    assert_eq!(select_task(1, 3, Key::Esc), Selecting::Quit);
    assert_eq!(select_task(1, 3, Key::Char('q')), Selecting::Quit);
    assert_eq!(select_task(1, 3, Key::Char('Q')), Selecting::At(1));
}

#[test]
fn the_cursor_follows_the_width_of_the_text() {
    assert_eq!(cursor_column(2, 20, ""), 3);
    assert_eq!(cursor_column(2, 20, "abc"), 6);
    assert_eq!(cursor_column(2, 20, "漢字"), 7);
    assert_eq!(cursor_column(2, 6, "abcdefgh"), 6);
    assert_eq!(place_cursor(5, 1, 10), 5);
    assert_eq!(place_cursor(u16::MAX, 2, 10), u16::MAX);
    assert_eq!(place_cursor(0, u16::MAX, usize::MAX), u16::MAX - 2);
}
