//! The interactive sessions: clarifying the inbox, and reviewing what is active
//! and what waits for some day.

use vstd::prelude::*;
use vstd::string::*;
use crate::api::present;
use crate::client::{collected_labels, labels_from_pairs, labels_result};
use crate::domain::{optional_text, task_views, FilterView, Task, TaskEdit, TaskFilter, TaskId};
use crate::domain::{TaskList, TaskState, TaskView};
use crate::labels::{LabelMap, Labels};
use crate::numbers::{decimal, unsigned_text};
use crate::rules::change_allowed;
use crate::screens::{offers, Menu};
use crate::sequences::{lemma_filter_all, lemma_filter_take};
use crate::text::{split, split_all, texts, trim, trimmed};

verus! {

broadcast use vstd::string::group_string_axioms;

// ------------------------------------------------------------- what is shared

/// A task to be moved, with what is edited on the way.
#[derive(Debug, PartialEq, Eq)]
pub struct Move {
    pub id: TaskId,
    pub list: TaskList,
    pub state: TaskState,
    pub edit: TaskEdit,
}

/// What a move is.
#[verifier::ext_equal]
pub struct MoveView {
    pub id: TaskId,
    pub list: TaskList,
    pub state: TaskState,
    pub labels: LabelMap,
    pub description: Option<Seq<char>>,
}

impl View for Move {
    type V = MoveView;

    open spec fn view(&self) -> MoveView {
        MoveView {
            id: self.id,
            list: self.list,
            state: self.state,
            labels: self.edit.labels@,
            description: optional_text(self.edit.description),
        }
    }
}

/// A move without edits.
pub open spec fn plain_move(id: TaskId, list: TaskList, state: TaskState) -> MoveView {
    MoveView { id, list, state, labels: LabelMap::empty(), description: None }
}

/// Moves a task without edits.
pub fn move_only(id: TaskId, list: TaskList, state: TaskState) -> (r: Move)
    ensures
        r@ == plain_move(id, list, state),
{
    Move { id, list, state, edit: TaskEdit { labels: Labels::new(), description: None } }
}

/// What a session wants done next.
#[derive(Debug, PartialEq, Eq)]
pub enum Action {
    /// Put a question for the current task.
    Ask { title: String, menu: Menu },
    /// Let a text be written for the current task.
    Prompt { title: String, prompt: &'static str },
    /// Move a task.
    Change(Move),
    /// The session is over, with so many tasks dealt with.
    Finish(usize),
    /// The session ends with an error.
    Fail(String),
}

/// What a session wants done next.
pub enum ActionView {
    Ask { title: Seq<char>, menu: Menu },
    Prompt { title: Seq<char>, prompt: Seq<char> },
    Change(MoveView),
    Finish(int),
    Fail(Seq<char>),
}

impl View for Action {
    type V = ActionView;

    open spec fn view(&self) -> ActionView {
        match self {
            Action::Ask { title, menu } => ActionView::Ask { title: title@, menu: *menu },
            Action::Prompt { title, prompt } => ActionView::Prompt {
                title: title@,
                prompt: prompt@,
            },
            Action::Change(m) => ActionView::Change(m@),
            Action::Finish(n) => ActionView::Finish(*n as int),
            Action::Fail(m) => ActionView::Fail(m@),
        }
    }
}

/// What came of an action.
#[derive(Debug, PartialEq, Eq)]
pub enum Answer {
    Chosen(char),
    Quit,
    Entered(Option<String>),
    Changed,
}

/// What came of an action.
pub enum AnswerView {
    Chosen(char),
    Quit,
    Entered(Option<Seq<char>>),
    Changed,
}

impl View for Answer {
    type V = AnswerView;

    open spec fn view(&self) -> AnswerView {
        match self {
            Answer::Chosen(c) => AnswerView::Chosen(*c),
            Answer::Quit => AnswerView::Quit,
            Answer::Entered(o) => AnswerView::Entered(optional_text(*o)),
            Answer::Changed => AnswerView::Changed,
        }
    }
}

/// An answer that a menu can give.
pub open spec fn answers(menu: Menu, a: AnswerView) -> bool {
    match a {
        AnswerView::Quit => true,
        AnswerView::Chosen(c) => c != 'q' && offers(menu, c),
        _ => false,
    }
}

/// A title with the position of the current task.
pub open spec fn titled(name: Seq<char>, index: int, count: int) -> Seq<char> {
    name + " · "@ + decimal(index + 1) + " of "@ + decimal(count)
}

fn title(name: &str, index: usize, count: usize) -> (r: String)
    requires
        index < count,
    ensures
        r@ == titled(name@, index as int, count as int),
{
    let mut out: String = name.to_owned();
    out.append(" · ");
    out.append(unsigned_text((index + 1) as u64).as_str());
    out.append(" of ");
    out.append(unsigned_text(count as u64).as_str());
    out
}

/// The tasks in one list, in one state if it is given.
pub fn list_filter(list: TaskList, state: Option<TaskState>) -> (r: TaskFilter)
    ensures
        r@ == (FilterView { list: Some(list), state, labels: LabelMap::empty() }),
{
    TaskFilter { list: Some(list), state, labels: Labels::new() }
}

/// The tasks that are processed: those that are pending in the inbox.
pub open spec fn to_process() -> FilterView {
    FilterView {
        list: Some(TaskList::Inbox),
        state: Some(TaskState::Pending),
        labels: LabelMap::empty(),
    }
}

/// The tasks that are reviewed first: the pending next actions.
pub open spec fn to_review_first() -> FilterView {
    FilterView {
        list: Some(TaskList::NextAction),
        state: Some(TaskState::Pending),
        labels: LabelMap::empty(),
    }
}

/// The tasks that are reviewed last: those that are pending for some day.
pub open spec fn to_review_last() -> FilterView {
    FilterView {
        list: Some(TaskList::SomedayMaybe),
        state: Some(TaskState::Pending),
        labels: LabelMap::empty(),
    }
}

/// Which tasks are processed.
pub fn inbox_filter() -> (r: TaskFilter)
    ensures
        r@ == to_process(),
{
    list_filter(TaskList::Inbox, Some(TaskState::Pending))
}

/// Which tasks are reviewed first.
pub fn next_actions_filter() -> (r: TaskFilter)
    ensures
        r@ == to_review_first(),
{
    list_filter(TaskList::NextAction, Some(TaskState::Pending))
}

/// Which tasks are reviewed last.
pub fn someday_filter() -> (r: TaskFilter)
    ensures
        r@ == to_review_last(),
{
    list_filter(TaskList::SomedayMaybe, Some(TaskState::Pending))
}

// ------------------------------------------------------------------- editing

/// The labels that are written between commas; white space and empty pieces do
/// not count.
pub open spec fn label_pieces(text: Seq<char>) -> Seq<Seq<char>> {
    present(split(text, ',').map_values(|s: Seq<char>| trimmed(s)))
}

fn pieces(text: &str) -> (r: Vec<String>)
    ensures
        texts(r@) == label_pieces(text@),
{
    let raw = split_all(text, ',');
    let ghost t = split(text@, ',').map_values(|s: Seq<char>| trimmed(s));
    let ghost p = |s: Seq<char>| s.len() > 0;
    let mut out: Vec<String> = Vec::new();
    let mut i: usize = 0;
    assert(texts(out@) =~= t.take(0).filter(p)) by {
        lemma_filter_all(t.take(0), p);
    }
    while i < raw.len()
        invariant
            i <= raw.len(),
            texts(raw@) == split(text@, ','),
            t == split(text@, ',').map_values(|s: Seq<char>| trimmed(s)),
            p == (|s: Seq<char>| s.len() > 0),
            texts(out@) == t.take(i as int).filter(p),
        decreases raw.len() - i,
    {
        let ghost before = out@;
        assert(texts(raw@)[i as int] == raw@[i as int]@);
        assert(t[i as int] == trimmed(raw@[i as int]@));
        proof {
            lemma_filter_take(t, p, i as int);
        }
        let piece = trim(raw[i].as_str());
        if piece.unicode_len() > 0 {
            let piece = piece.to_owned();
            out.push(piece);
            assert(texts(out@) =~= texts(before).push(piece@));
        }
        i = i + 1;
    }
    assert(t.take(i as int) =~= t);
    out
}

/// The labels that were entered; none if nothing was.
pub open spec fn entered_labels(entry: Option<Seq<char>>) -> Result<LabelMap, Seq<char>> {
    collected_labels(
        label_pieces(
            match entry {
                Some(s) => s,
                None => Seq::empty(),
            },
        ),
    )
}

/// Reads the labels that were entered.
pub fn read_labels_entry(entry: Option<String>) -> (r: Result<Labels, String>)
    ensures
        labels_result(r) == entered_labels(optional_text(entry)),
{
    let text = match entry {
        Some(s) => s,
        None => String::new(),
    };
    assert(entry is None ==> text@ =~= Seq::empty());
    labels_from_pairs(&pieces(text.as_str()))
}

/// The description that was entered; a blank one keeps the present one.
pub open spec fn entered_description(entry: Option<Seq<char>>) -> Option<Seq<char>> {
    match entry {
        Some(s) => if trimmed(s).len() > 0 {
            Some(s)
        } else {
            None
        },
        None => None,
    }
}

/// Reads the description that was entered.
pub fn read_description_entry(entry: Option<String>) -> (r: Option<String>)
    ensures
        optional_text(r) == entered_description(optional_text(entry)),
{
    match entry {
        Some(s) => {
            if trim(s.as_str()).unicode_len() > 0 {
                Some(s)
            } else {
                None
            }
        },
        None => None,
    }
}

/// What is asked before the labels are written.
pub open spec fn labels_prompt() -> Seq<char> {
    "Labels (comma-separated key:value; blank is fine)"@
}

/// What is asked before the description is written.
pub open spec fn description_prompt() -> Seq<char> {
    "Description (blank keeps current)"@
}

// --------------------------------------------------------- clarifying the inbox

/// Where an edited task goes.
#[derive(Debug, Clone, Copy, PartialEq, Eq, Structural)]
pub enum Target {
    Done,
    NextAction,
    WaitingFor,
}

/// The list and state of a target.
pub open spec fn target_place(t: Target) -> (TaskList, TaskState) {
    match t {
        Target::Done => (TaskList::Archive, TaskState::Done),
        Target::NextAction => (TaskList::NextAction, TaskState::Pending),
        Target::WaitingFor => (TaskList::WaitingFor, TaskState::Pending),
    }
}

/// How far the session is with the current task.
#[derive(Debug, PartialEq, Eq)]
pub enum InboxStage {
    Actionable,
    NextStep,
    /// The task is being marked as begun.
    Starting,
    Outcome,
    Disposal,
    Labels(Target),
    Description(Target, Labels),
    /// The task is being put where it belongs.
    Moving,
    Over,
}

/// How far the session is with the current task.
pub enum StageView {
    Actionable,
    NextStep,
    Starting,
    Outcome,
    Disposal,
    Labels(Target),
    Description(Target, LabelMap),
    Moving,
    Over,
}

impl View for InboxStage {
    type V = StageView;

    open spec fn view(&self) -> StageView {
        match self {
            InboxStage::Actionable => StageView::Actionable,
            InboxStage::NextStep => StageView::NextStep,
            InboxStage::Starting => StageView::Starting,
            InboxStage::Outcome => StageView::Outcome,
            InboxStage::Disposal => StageView::Disposal,
            InboxStage::Labels(t) => StageView::Labels(*t),
            InboxStage::Description(t, l) => StageView::Description(*t, l@),
            InboxStage::Moving => StageView::Moving,
            InboxStage::Over => StageView::Over,
        }
    }
}

/// A session that goes through the inbox.
#[derive(Debug)]
pub struct InboxSession {
    tasks: Vec<Task>,
    index: usize,
    stage: InboxStage,
}

/// What a session that goes through the inbox is.
#[verifier::ext_equal]
pub struct InboxView {
    pub tasks: Seq<TaskView>,
    pub index: int,
    pub stage: StageView,
}

impl View for InboxSession {
    type V = InboxView;

    closed spec fn view(&self) -> InboxView {
        InboxView { tasks: task_views(self.tasks@), index: self.index as int, stage: self.stage@ }
    }
}

impl InboxView {
    /// There is a current task until the session is over.
    pub open spec fn valid(self) -> bool {
        self.stage is Over || 0 <= self.index < self.tasks.len()
    }

    /// The title of the current task.
    pub open spec fn title(self) -> Seq<char> {
        titled("Process inbox"@, self.index, self.tasks.len() as int)
    }

    /// The session goes on to a stage.
    pub open spec fn at(self, stage: StageView) -> InboxView {
        InboxView { stage, ..self }
    }

    /// The answers that the session can take in.
    pub open spec fn expects(self, a: AnswerView) -> bool {
        match self.stage {
            StageView::Actionable => answers(Menu::Actionable, a),
            StageView::NextStep => answers(Menu::NextStep, a),
            StageView::Outcome => answers(Menu::Outcome, a),
            StageView::Disposal => answers(Menu::Disposal, a),
            StageView::Labels(_) => a is Entered,
            StageView::Description(..) => a is Entered,
            StageView::Starting => a is Changed,
            StageView::Moving => a is Changed,
            StageView::Over => false,
        }
    }

    /// The session ends; the tasks before the current one have been dealt with.
    pub open spec fn quit(self) -> (InboxView, ActionView) {
        (self.at(StageView::Over), ActionView::Finish(self.index))
    }

    /// The session puts a question.
    pub open spec fn ask(self, stage: StageView, menu: Menu) -> (InboxView, ActionView) {
        (self.at(stage), ActionView::Ask { title: self.title(), menu })
    }

    /// The session moves the current task and waits until that is done.
    pub open spec fn change(
        self,
        stage: StageView,
        list: TaskList,
        state: TaskState,
        labels: LabelMap,
        description: Option<Seq<char>>,
    ) -> (InboxView, ActionView) {
        (
            self.at(stage),
            ActionView::Change(
                MoveView { id: self.tasks[self.index].id, list, state, labels, description },
            ),
        )
    }

    /// The session turns to the next task, if there is one.
    pub open spec fn next_task(self) -> (InboxView, ActionView) {
        let next = InboxView { index: self.index + 1, ..self };
        if next.index < self.tasks.len() {
            next.ask(StageView::Actionable, Menu::Actionable)
        } else {
            next.quit()
        }
    }

    /// What the session does once it has an answer.
    pub open spec fn after(self, a: AnswerView) -> (InboxView, ActionView) {
        let none = LabelMap::empty();
        match (self.stage, a) {
            (StageView::Actionable, AnswerView::Chosen('y')) => self.ask(
                StageView::NextStep,
                Menu::NextStep,
            ),
            (StageView::Actionable, AnswerView::Chosen(_)) => self.ask(
                StageView::Disposal,
                Menu::Disposal,
            ),
            (StageView::NextStep, AnswerView::Chosen('d')) => self.change(
                StageView::Starting,
                TaskList::Inbox,
                TaskState::Doing,
                none,
                None,
            ),
            (StageView::NextStep, AnswerView::Chosen('f')) => self.edit(Target::NextAction),
            (StageView::NextStep, AnswerView::Chosen(_)) => self.edit(Target::WaitingFor),
            (StageView::Starting, _) => self.ask(StageView::Outcome, Menu::Outcome),
            (StageView::Outcome, AnswerView::Chosen('d')) => self.edit(Target::Done),
            (StageView::Outcome, AnswerView::Chosen(_)) => self.change(
                StageView::Moving,
                TaskList::Archive,
                TaskState::Trash,
                none,
                None,
            ),
            (StageView::Disposal, AnswerView::Chosen('x')) => self.change(
                StageView::Moving,
                TaskList::Archive,
                TaskState::Trash,
                none,
                None,
            ),
            (StageView::Disposal, AnswerView::Chosen(_)) => self.change(
                StageView::Moving,
                TaskList::SomedayMaybe,
                TaskState::Pending,
                none,
                None,
            ),
            (StageView::Labels(t), AnswerView::Entered(entry)) => match entered_labels(entry) {
                Err(m) => (self.at(StageView::Over), ActionView::Fail(m)),
                Ok(labels) => (
                    self.at(StageView::Description(t, labels)),
                    ActionView::Prompt { title: self.title(), prompt: description_prompt() },
                ),
            },
            (StageView::Description(t, labels), AnswerView::Entered(entry)) => self.change(
                StageView::Moving,
                target_place(t).0,
                target_place(t).1,
                labels,
                entered_description(entry),
            ),
            (StageView::Moving, _) => self.next_task(),
            _ => self.quit(),
        }
    }

    /// The session lets labels be written for the current task.
    pub open spec fn edit(self, t: Target) -> (InboxView, ActionView) {
        (
            self.at(StageView::Labels(t)),
            ActionView::Prompt { title: self.title(), prompt: labels_prompt() },
        )
    }
}

/// Begins to go through the tasks of the inbox.
pub fn process_inbox(tasks: Vec<Task>) -> (r: (InboxSession, Action))
    ensures
        r.0@.valid(),
        ({
            let fresh = InboxView {
                tasks: task_views(tasks@),
                index: 0,
                stage: StageView::Actionable,
            };
            (r.0@, r.1@) == if tasks@.len() == 0 {
                fresh.quit()
            } else {
                fresh.ask(StageView::Actionable, Menu::Actionable)
            }
        }),
{
    if tasks.len() == 0 {
        return (InboxSession { tasks, index: 0, stage: InboxStage::Over }, Action::Finish(0));
    }
    let title = title("Process inbox", 0, tasks.len());
    (
        InboxSession { tasks, index: 0, stage: InboxStage::Actionable },
        Action::Ask { title, menu: Menu::Actionable },
    )
}

impl InboxSession {
    /// The current task, unless the session is over.
    pub fn task(&self) -> (r: Option<&Task>)
        requires
            self@.valid(),
        ensures
            r is None <==> self@.stage is Over,
            r is Some ==> r->0@ == self@.tasks[self@.index],
    {
        match self.stage {
            InboxStage::Over => None,
            _ => {
                assert(task_views(self.tasks@)[self.index as int] == self.tasks@[self.index as int]@);
                Some(&self.tasks[self.index])
            },
        }
    }

    fn title(&self) -> (r: String)
        requires
            0 <= self@.index < self@.tasks.len(),
        ensures
            r@ == self@.title(),
    {
        title("Process inbox", self.index, self.tasks.len())
    }

    fn change(&self, list: TaskList, state: TaskState, edit: TaskEdit) -> (r: Action)
        requires
            0 <= self@.index < self@.tasks.len(),
        ensures
            r@ == self@.change(
                self@.stage,
                list,
                state,
                edit.labels@,
                optional_text(edit.description),
            ).1,
    {
        assert(task_views(self.tasks@)[self.index as int] == self.tasks@[self.index as int]@);
        Action::Change(Move { id: self.tasks[self.index].metadata.id, list, state, edit })
    }

    /// Takes in an answer, and decides what to do.
    pub fn advance(&mut self, answer: Answer) -> (r: Action)
        requires
            old(self)@.valid(),
            old(self)@.expects(answer@),
        ensures
            (final(self)@, r@) == old(self)@.after(answer@),
            final(self)@.valid(),
            old(self)@.stage matches StageView::Description(t, l) ==> r@ is Change
                && r@->Change_0.labels == l && r@->Change_0.description == entered_description(
                answer@->Entered_0,
            ) && r@->Change_0.id == old(self)@.tasks[old(self)@.index].id,
            old(self)@.stage matches StageView::Labels(t) ==> match entered_labels(
                answer@->Entered_0,
            ) {
                Ok(l) => r@ is Prompt && final(self)@.stage == StageView::Description(t, l),
                Err(m) => r@ == ActionView::Fail(m),
            },
    {
        let title = self.title();
        assert(self.index < self.tasks.len());
        let mut stage: InboxStage = InboxStage::Over;
        std::mem::swap(&mut stage, &mut self.stage);
        match (stage, answer) {
            (InboxStage::Actionable, Answer::Chosen(c)) => {
                if c == 'y' {
                    self.stage = InboxStage::NextStep;
                    Action::Ask { title, menu: Menu::NextStep }
                } else {
                    self.stage = InboxStage::Disposal;
                    Action::Ask { title, menu: Menu::Disposal }
                }
            },
            (InboxStage::NextStep, Answer::Chosen(c)) => {
                if c == 'd' {
                    self.stage = InboxStage::Starting;
                    self.change(TaskList::Inbox, TaskState::Doing, TaskEdit::default())
                } else {
                    let target = if c == 'f' {
                        Target::NextAction
                    } else {
                        Target::WaitingFor
                    };
                    self.stage = InboxStage::Labels(target);
                    Action::Prompt {
                        title,
                        prompt: "Labels (comma-separated key:value; blank is fine)",
                    }
                }
            },
            (InboxStage::Starting, _) => {
                self.stage = InboxStage::Outcome;
                Action::Ask { title, menu: Menu::Outcome }
            },
            (InboxStage::Outcome, Answer::Chosen(c)) => {
                if c == 'd' {
                    self.stage = InboxStage::Labels(Target::Done);
                    Action::Prompt {
                        title,
                        prompt: "Labels (comma-separated key:value; blank is fine)",
                    }
                } else {
                    self.stage = InboxStage::Moving;
                    self.change(TaskList::Archive, TaskState::Trash, TaskEdit::default())
                }
            },
            (InboxStage::Disposal, Answer::Chosen(c)) => {
                self.stage = InboxStage::Moving;
                if c == 'x' {
                    self.change(TaskList::Archive, TaskState::Trash, TaskEdit::default())
                } else {
                    self.change(TaskList::SomedayMaybe, TaskState::Pending, TaskEdit::default())
                }
            },
            (InboxStage::Labels(target), Answer::Entered(entry)) => {
                match read_labels_entry(entry) {
                    Err(m) => Action::Fail(m),
                    Ok(labels) => {
                        self.stage = InboxStage::Description(target, labels);
                        Action::Prompt { title, prompt: "Description (blank keeps current)" }
                    },
                }
            },
            (InboxStage::Description(target, labels), Answer::Entered(entry)) => {
                self.stage = InboxStage::Moving;
                let edit = TaskEdit { labels, description: read_description_entry(entry) };
                match target {
                    Target::Done => self.change(TaskList::Archive, TaskState::Done, edit),
                    Target::NextAction => self.change(
                        TaskList::NextAction,
                        TaskState::Pending,
                        edit,
                    ),
                    Target::WaitingFor => self.change(
                        TaskList::WaitingFor,
                        TaskState::Pending,
                        edit,
                    ),
                }
            },
            (InboxStage::Moving, _) => {
                self.index = self.index + 1;
                if self.index < self.tasks.len() {
                    self.stage = InboxStage::Actionable;
                    Action::Ask { title: self.title(), menu: Menu::Actionable }
                } else {
                    Action::Finish(self.index)
                }
            },
            _ => Action::Finish(self.index),
        }
    }
}

/// Where the current task stands at a stage, if it was pending in the inbox when
/// the session began: a move that is waited for counts as made.
pub open spec fn inbox_place(stage: StageView) -> (TaskList, TaskState) {
    match stage {
        StageView::Starting => (TaskList::Inbox, TaskState::Doing),
        StageView::Outcome => (TaskList::Inbox, TaskState::Doing),
        StageView::Labels(Target::Done) => (TaskList::Inbox, TaskState::Doing),
        StageView::Description(Target::Done, _) => (TaskList::Inbox, TaskState::Doing),
        _ => (TaskList::Inbox, TaskState::Pending),
    }
}

/// Every move that the session asks for is an allowed one, and a task that is
/// done right away is marked as begun before its outcome is asked for.
pub proof fn lemma_inbox_moves_allowed(v: InboxView, a: AnswerView)
    requires
        v.valid(),
        v.expects(a),
        !(v.stage is Moving),
    ensures
        v.after(a).1 matches ActionView::Change(m) ==> {
            &&& m.id == v.tasks[v.index].id
            &&& change_allowed(inbox_place(v.stage).0, inbox_place(v.stage).1, m.list, m.state)
            &&& v.after(a).0.stage is Moving || inbox_place(v.after(a).0.stage) == (
                m.list,
                m.state,
            )
        },
        v.after(a).1 is Ask || v.after(a).1 is Prompt ==> inbox_place(v.after(a).0.stage)
            == inbox_place(v.stage),
{
}

/// Only a task that has been moved for good is counted.
pub proof fn lemma_inbox_count(v: InboxView, a: AnswerView)
    requires
        v.valid(),
        v.expects(a),
    ensures
        v.after(a).0.index == v.index + if v.stage is Moving { 1int } else { 0int },
        v.after(a).1 matches ActionView::Finish(n) ==> n == v.after(a).0.index,
{
}

// ---------------------------------------------------------------- the review

/// A session that reviews the next actions and then the tasks for some day.
#[derive(Debug)]
pub struct ReviewSession {
    next_actions: Vec<Task>,
    someday: Vec<Task>,
    in_someday: bool,
    index: usize,
    moving: bool,
    over: bool,
}

/// What a review is.
#[verifier::ext_equal]
pub struct ReviewView {
    pub next_actions: Seq<TaskView>,
    pub someday: Seq<TaskView>,
    pub in_someday: bool,
    pub index: int,
    pub moving: bool,
    pub over: bool,
}

impl View for ReviewSession {
    type V = ReviewView;

    closed spec fn view(&self) -> ReviewView {
        ReviewView {
            next_actions: task_views(self.next_actions@),
            someday: task_views(self.someday@),
            in_someday: self.in_someday,
            index: self.index as int,
            moving: self.moving,
            over: self.over,
        }
    }
}

impl ReviewView {
    /// The tasks of the present part.
    pub open spec fn part(self) -> Seq<TaskView> {
        if self.in_someday {
            self.someday
        } else {
            self.next_actions
        }
    }

    /// There is a current task until the review is over.
    pub open spec fn valid(self) -> bool {
        &&& self.over || 0 <= self.index < self.part().len()
        &&& self.next_actions.len() + self.someday.len() <= usize::MAX
    }

    /// How many tasks have been reviewed.
    pub open spec fn reviewed(self) -> int {
        if self.in_someday {
            self.next_actions.len() + self.index
        } else {
            self.index
        }
    }

    /// The question of the present part.
    pub open spec fn menu(self) -> Menu {
        if self.in_someday {
            Menu::Someday
        } else {
            Menu::NextAction
        }
    }

    /// The title of the current task.
    pub open spec fn title(self) -> Seq<char> {
        if self.in_someday {
            titled("Review someday/maybe"@, self.index, self.someday.len() as int)
        } else {
            titled("Review next actions"@, self.index, self.next_actions.len() as int)
        }
    }

    /// The answers that the review can take in.
    pub open spec fn expects(self, a: AnswerView) -> bool {
        &&& !self.over
        &&& if self.moving {
            a is Changed
        } else {
            answers(self.menu(), a)
        }
    }

    /// The review ends.
    pub open spec fn quit(self) -> (ReviewView, ActionView) {
        (
            ReviewView { moving: false, over: true, ..self },
            ActionView::Finish(self.reviewed()),
        )
    }

    /// The review asks for the current task; where a part has no more tasks, it
    /// turns to the next part, or ends.
    pub open spec fn ask(self) -> (ReviewView, ActionView) {
        let v = if !self.in_someday && self.index == self.next_actions.len() {
            ReviewView { in_someday: true, index: 0, moving: false, ..self }
        } else {
            ReviewView { moving: false, ..self }
        };
        if v.index < v.part().len() {
            (v, ActionView::Ask { title: v.title(), menu: v.menu() })
        } else {
            v.quit()
        }
    }

    /// The review moves the current task and waits until that is done.
    pub open spec fn change(self, list: TaskList, state: TaskState) -> (ReviewView, ActionView) {
        (
            ReviewView { moving: true, ..self },
            ActionView::Change(plain_move(self.part()[self.index].id, list, state)),
        )
    }

    /// What the review does once it has an answer.
    pub open spec fn after(self, a: AnswerView) -> (ReviewView, ActionView) {
        match a {
            AnswerView::Changed => (ReviewView { index: self.index + 1, ..self }).ask(),
            AnswerView::Chosen('k') => (ReviewView { index: self.index + 1, ..self }).ask(),
            AnswerView::Chosen('m') => self.change(TaskList::SomedayMaybe, TaskState::Pending),
            AnswerView::Chosen('a') => self.change(TaskList::NextAction, TaskState::Pending),
            AnswerView::Chosen(_) => self.change(TaskList::Archive, TaskState::Trash),
            _ => self.quit(),
        }
    }
}

/// Begins to review the next actions and the tasks for some day.
pub fn review(next_actions: Vec<Task>, someday: Vec<Task>) -> (r: (ReviewSession, Action))
    requires
        next_actions@.len() + someday@.len() <= usize::MAX,
    ensures
        r.0@.valid(),
        (r.0@, r.1@) == (ReviewView {
            next_actions: task_views(next_actions@),
            someday: task_views(someday@),
            in_someday: false,
            index: 0,
            moving: false,
            over: false,
        }).ask(),
{
    let mut session = ReviewSession {
        next_actions,
        someday,
        in_someday: false,
        index: 0,
        moving: false,
        over: false,
    };
    let action = session.ask();
    (session, action)
}

impl ReviewSession {
    /// The current task, unless the review is over.
    pub fn task(&self) -> (r: Option<&Task>)
        requires
            self@.valid(),
        ensures
            r is None <==> self@.over,
            r is Some ==> r->0@ == self@.part()[self@.index],
    {
        if self.over {
            return None;
        }
        if self.in_someday {
            assert(task_views(self.someday@)[self.index as int] == self.someday@[self.index as int]@);
            Some(&self.someday[self.index])
        } else {
            assert(task_views(self.next_actions@)[self.index as int]
                == self.next_actions@[self.index as int]@);
            Some(&self.next_actions[self.index])
        }
    }

    fn quit(&mut self) -> (r: Action)
        requires
            0 <= old(self)@.index <= old(self)@.part().len(),
            old(self)@.next_actions.len() + old(self)@.someday.len() <= usize::MAX,
        ensures
            (final(self)@, r@) == old(self)@.quit(),
    {
        self.moving = false;
        self.over = true;
        if self.in_someday {
            Action::Finish(self.next_actions.len() + self.index)
        } else {
            Action::Finish(self.index)
        }
    }

    fn ask(&mut self) -> (r: Action)
        requires
            !old(self)@.over,
            0 <= old(self)@.index <= old(self)@.part().len(),
            old(self)@.next_actions.len() + old(self)@.someday.len() <= usize::MAX,
        ensures
            (final(self)@, r@) == old(self)@.ask(),
            final(self)@.valid(),
    {
        self.moving = false;
        if !self.in_someday && self.index == self.next_actions.len() {
            self.in_someday = true;
            self.index = 0;
        }
        if self.in_someday {
            if self.index < self.someday.len() {
                let title = title("Review someday/maybe", self.index, self.someday.len());
                return Action::Ask { title, menu: Menu::Someday };
            }
        } else {
            if self.index < self.next_actions.len() {
                let title = title("Review next actions", self.index, self.next_actions.len());
                return Action::Ask { title, menu: Menu::NextAction };
            }
        }
        self.quit()
    }

    fn change(&mut self, list: TaskList, state: TaskState) -> (r: Action)
        requires
            old(self)@.valid(),
            !old(self)@.over,
        ensures
            (final(self)@, r@) == old(self)@.change(list, state),
    {
        let id = if self.in_someday {
            assert(task_views(self.someday@)[self.index as int] == self.someday@[self.index as int]@);
            self.someday[self.index].metadata.id
        } else {
            assert(task_views(self.next_actions@)[self.index as int]
                == self.next_actions@[self.index as int]@);
            self.next_actions[self.index].metadata.id
        };
        self.moving = true;
        Action::Change(move_only(id, list, state))
    }

    /// Takes in an answer, and decides what to do.
    pub fn advance(&mut self, answer: Answer) -> (r: Action)
        requires
            old(self)@.valid(),
            old(self)@.expects(answer@),
        ensures
            (final(self)@, r@) == old(self)@.after(answer@),
            final(self)@.valid(),
    {
        match answer {
            Answer::Changed => {
                self.index = self.index + 1;
                self.ask()
            },
            Answer::Chosen(c) => {
                if c == 'k' {
                    self.index = self.index + 1;
                    self.ask()
                } else if c == 'm' {
                    self.change(TaskList::SomedayMaybe, TaskState::Pending)
                } else if c == 'a' {
                    self.change(TaskList::NextAction, TaskState::Pending)
                } else {
                    self.change(TaskList::Archive, TaskState::Trash)
                }
            },
            _ => self.quit(),
        }
    }
}

/// The tasks of a review are those that it asked for.
pub open spec fn as_listed(v: ReviewView) -> bool {
    &&& forall|i: int|
        0 <= i < v.next_actions.len() ==> to_review_first().matches(#[trigger] v.next_actions[i])
    &&& forall|i: int|
        0 <= i < v.someday.len() ==> to_review_last().matches(#[trigger] v.someday[i])
}

/// Every task that a review puts a question for is a pending next action, or
/// pending for some day.
pub proof fn lemma_review_offers_pending(v: ReviewView)
    requires
        v.valid(),
        !v.over,
        as_listed(v),
    ensures
        v.part()[v.index].state == TaskState::Pending,
        v.part()[v.index].list == if v.in_someday {
            TaskList::SomedayMaybe
        } else {
            TaskList::NextAction
        },
{
}

/// Every move that a review asks for is an allowed one, if the tasks stand where
/// they were listed.
pub proof fn lemma_review_moves_allowed(v: ReviewView, a: AnswerView)
    requires
        v.valid(),
        v.expects(a),
        !v.moving,
        as_listed(v),
    ensures
        v.after(a).1 matches ActionView::Change(m) ==> {
            let t = v.part()[v.index];
            m.id == t.id && change_allowed(t.list, t.state, m.list, m.state)
        },
{
}

/// A review counts each task once, when it is kept or has been moved.
pub proof fn lemma_review_count(v: ReviewView, a: AnswerView)
    requires
        v.valid(),
        v.expects(a),
    ensures
        v.after(a).0.reviewed() == v.reviewed() + if a is Changed || a == AnswerView::Chosen('k') {
            1int
        } else {
            0int
        },
        v.after(a).1 matches ActionView::Finish(n) ==> n == v.after(a).0.reviewed(),
{
}

} // verus!
