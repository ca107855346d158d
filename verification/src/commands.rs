//! What the command line does: which requests each command makes, in which
//! order, and what it prints.

use vstd::prelude::*;
use vstd::string::*;
use crate::client::{collected_labels, create_request, edited, get_request, label_list};
use crate::client::{labels_from_pairs, list_request, update_request, write_label_list, ApiClient};
use crate::client::{ApiRequest, RequestView, TargetView};
use crate::domain::{list_text, optional_text, state_text, task_views, FilterView, Task, TaskEdit};
use crate::domain::{TaskFilter, TaskId, TaskList, TaskState, TaskView, Timestamp};
use crate::domain::UpdateTaskRequest;
use crate::history::event_sound;
use crate::ids::{hyphenated, uuid_text};
use crate::labels::LabelMap;
use crate::numbers::{decimal, signed_text, unsigned_text};
use crate::repository::{has_task, latest, lemma_latest, lemma_latest_exists, update_result};
use crate::repository::{LogView, RevisionState};
use crate::rules::change_allowed;
use crate::sessions::{list_filter, move_only, plain_move, Move, MoveView};
use crate::text::{join, join_all, texts};

verus! {

broadcast use vstd::string::group_string_axioms;

// --------------------------------------------------------------------- texts

/// What is printed of a captured task.
pub open spec fn captured(t: TaskView) -> Seq<char> {
    "captured #"@ + hyphenated(t.id) + " in "@ + list_text(t.list) + ": "@ + t.description
}

/// What is printed of a task that was moved.
pub open spec fn reported(report: Report, t: TaskView) -> Seq<char> {
    match report {
        Report::Doing => "doing #"@ + hyphenated(t.id) + ": "@ + t.description,
        Report::Archived => "archived #"@ + hyphenated(t.id) + " as done: "@ + t.description,
    }
}

/// A task as a line of a list. The labels follow in brackets if there are any.
pub open spec fn task_line(t: TaskView) -> Seq<char> {
    "#"@ + hyphenated(t.id) + " "@ + state_text(t.state) + " "@ + t.description + if t.labels
        == LabelMap::empty() {
        Seq::empty()
    } else {
        " · ["@ + label_list(t.labels) + "]"@
    }
}

/// The lines of a list of tasks.
pub open spec fn task_lines(tasks: Seq<TaskView>) -> Seq<Seq<char>> {
    if tasks.len() == 0 {
        seq!["no tasks"@]
    } else {
        tasks.map_values(|t: TaskView| task_line(t))
    }
}

/// The identifiers of the tasks.
pub open spec fn id_texts(tasks: Seq<TaskView>) -> Seq<Seq<char>> {
    tasks.map_values(|t: TaskView| hyphenated(t.id))
}

/// What is said if there is a choice of tasks and nobody to ask.
pub open spec fn pick_needs_id(tasks: Seq<TaskView>) -> Seq<char> {
    "pick needs a task ID when stdin is not a terminal; available IDs: "@ + join(
        id_texts(tasks),
        ", "@,
    )
}

/// What is said if a task is to be done that nobody is doing.
pub open spec fn done_needs_doing(t: TaskView) -> Seq<char> {
    "'done' accepts only a doing task; task "@ + hyphenated(t.id) + " is "@ + list_text(t.list)
        + "/"@ + state_text(t.state)
}

/// What is said if a command has no terminal to work on.
pub open spec fn needs_terminal(command: Seq<char>) -> Seq<char> {
    "'"@ + command + "' requires an interactive terminal"@
}

fn capture_text(task: &Task) -> (r: String)
    ensures
        r@ == captured(task@),
{
    let mut out: String = "captured #".to_owned();
    out.append(uuid_text(task.metadata.id).as_str());
    out.append(" in ");
    out.append(task.list.as_str());
    out.append(": ");
    out.append(task.description.as_str());
    out
}

fn report_text(report: Report, task: &Task) -> (r: String)
    ensures
        r@ == reported(report, task@),
{
    match report {
        Report::Doing => {
            let mut out: String = "doing #".to_owned();
            out.append(uuid_text(task.metadata.id).as_str());
            out.append(": ");
            out.append(task.description.as_str());
            out
        },
        Report::Archived => {
            let mut out: String = "archived #".to_owned();
            out.append(uuid_text(task.metadata.id).as_str());
            out.append(" as done: ");
            out.append(task.description.as_str());
            out
        },
    }
}

fn line(task: &Task) -> (r: String)
    ensures
        r@ == task_line(task@),
{
    let mut out: String = "#".to_owned();
    out.append(uuid_text(task.metadata.id).as_str());
    out.append(" ");
    out.append(task.state.as_str());
    out.append(" ");
    out.append(task.description.as_str());
    let ghost head = out@;
    if !task.labels.is_empty() {
        out.append(" · [");
        out.append(write_label_list(&task.labels).as_str());
        out.append("]");
        assert(out@ =~= head + (" · ["@ + label_list(task@.labels) + "]"@));
    } else {
        assert(out@ =~= head + Seq::empty());
    }
    out
}

/// The lines of a list of tasks.
pub fn print_tasks(tasks: &Vec<Task>) -> (r: Vec<String>)
    ensures
        texts(r@) == task_lines(task_views(tasks@)),
{
    let mut out: Vec<String> = Vec::new();
    if tasks.len() == 0 {
        out.push("no tasks".to_owned());
        assert(texts(out@) =~= seq!["no tasks"@]);
        return out;
    }
    let ghost all = task_views(tasks@).map_values(|t: TaskView| task_line(t));
    let mut i: usize = 0;
    assert(texts(out@) =~= all.take(0));
    while i < tasks.len()
        invariant
            i <= tasks.len(),
            all == task_views(tasks@).map_values(|t: TaskView| task_line(t)),
            texts(out@) == all.take(i as int),
        decreases tasks.len() - i,
    {
        let ghost before = out@;
        let text = line(&tasks[i]);
        assert(task_views(tasks@)[i as int] == tasks@[i as int]@);
        out.push(text);
        assert(texts(out@) =~= texts(before).push(text@));
        assert(all.take(i + 1) =~= all.take(i as int).push(text@));
        i = i + 1;
    }
    assert(all.take(i as int) =~= all);
    out
}

fn missing_id_text(tasks: &Vec<Task>) -> (r: String)
    ensures
        r@ == pick_needs_id(task_views(tasks@)),
{
    let ghost all = id_texts(task_views(tasks@));
    let mut ids: Vec<String> = Vec::new();
    let mut i: usize = 0;
    assert(texts(ids@) =~= all.take(0));
    while i < tasks.len()
        invariant
            i <= tasks.len(),
            all == id_texts(task_views(tasks@)),
            texts(ids@) == all.take(i as int),
        decreases tasks.len() - i,
    {
        let ghost before = ids@;
        let text = uuid_text(tasks[i].metadata.id);
        assert(task_views(tasks@)[i as int] == tasks@[i as int]@);
        ids.push(text);
        assert(texts(ids@) =~= texts(before).push(text@));
        assert(all.take(i + 1) =~= all.take(i as int).push(text@));
        i = i + 1;
    }
    assert(all.take(i as int) =~= all);
    let mut out: String =
        "pick needs a task ID when stdin is not a terminal; available IDs: ".to_owned();
    out.append(join_all(&ids, ", ").as_str());
    out
}

fn not_doing_text(task: &Task) -> (r: String)
    ensures
        r@ == done_needs_doing(task@),
{
    let mut out: String = "'done' accepts only a doing task; task ".to_owned();
    out.append(uuid_text(task.metadata.id).as_str());
    out.append(" is ");
    out.append(task.list.as_str());
    out.append("/");
    out.append(task.state.as_str());
    out
}

/// Refuses a command that has no terminal to work on.
pub fn require_terminal(command: &str, interactive: bool) -> (r: Result<(), String>)
    ensures
        r is Ok <==> interactive,
        r is Err ==> r->Err_0@ == needs_terminal(command@),
{
    if interactive {
        return Ok(());
    }
    let mut out: String = "'".to_owned();
    out.append(command);
    out.append("' requires an interactive terminal");
    Err(out)
}

/// What is printed once history has been compacted.
pub fn compaction_report(state: RevisionState) -> (r: String)
    ensures
        r@ == "compacted task events: scheduled="@ + decimal(state.scheduled_revision as int)
            + ", finished="@ + decimal(state.finished_revision as int) + ", current="@ + decimal(
            state.current_revision as int,
        ),
{
    let mut out: String = "compacted task events: scheduled=".to_owned();
    out.append(signed_text(state.scheduled_revision).as_str());
    out.append(", finished=");
    out.append(signed_text(state.finished_revision).as_str());
    out.append(", current=");
    out.append(signed_text(state.current_revision).as_str());
    out
}

// ------------------------------------------------------------------ commands

/// A command of the client.
#[derive(Debug, PartialEq, Eq)]
pub enum ClientCommand {
    Add { words: Vec<String> },
    Pick { chosen: Option<TaskId> },
    Done { id: TaskId, labels: Vec<String>, description: Option<String> },
    List { list: TaskList, labels: Vec<String>, state: Option<TaskState>, json: bool },
    Process,
    Review,
}

/// What a command is.
pub enum CommandView {
    Add { words: Seq<Seq<char>> },
    Pick { chosen: Option<TaskId> },
    Done { id: TaskId, labels: Seq<Seq<char>>, description: Option<Seq<char>> },
    List { list: TaskList, labels: Seq<Seq<char>>, state: Option<TaskState>, json: bool },
    Process,
    Review,
}

impl View for ClientCommand {
    type V = CommandView;

    open spec fn view(&self) -> CommandView {
        match self {
            ClientCommand::Add { words } => CommandView::Add { words: texts(words@) },
            ClientCommand::Pick { chosen } => CommandView::Pick { chosen: *chosen },
            ClientCommand::Done { id, labels, description } => CommandView::Done {
                id: *id,
                labels: texts(labels@),
                description: optional_text(*description),
            },
            ClientCommand::List { list, labels, state, json } => CommandView::List {
                list: *list,
                labels: texts(labels@),
                state: *state,
                json: *json,
            },
            ClientCommand::Process => CommandView::Process,
            ClientCommand::Review => CommandView::Review,
        }
    }
}

/// What is said of a task once it has been moved.
#[derive(Debug, Clone, Copy, PartialEq, Eq, Structural)]
pub enum Report {
    Doing,
    Archived,
}

/// How far a command is.
#[derive(Debug, PartialEq, Eq)]
pub enum Stage {
    /// A task is being created.
    Creating,
    /// The tasks to choose from are being listed.
    Choosing { interactive: bool },
    /// One of these tasks is being selected.
    Selecting { tasks: Vec<Task> },
    /// The task to be moved is being read.
    Reading { change: Move, report: Report },
    /// The task is being moved.
    Updating { report: Report },
    /// The tasks to print are being listed.
    Listing { json: bool },
    /// The inbox is being processed.
    Processing,
    /// The lists are being reviewed.
    Reviewing,
    Over,
}

/// How far a command is.
pub enum StageView {
    Creating,
    Choosing { interactive: bool },
    Selecting { tasks: Seq<TaskView> },
    Reading { change: MoveView, report: Report },
    Updating { report: Report },
    Listing { json: bool },
    Processing,
    Reviewing,
    Over,
}

impl View for Stage {
    type V = StageView;

    open spec fn view(&self) -> StageView {
        match self {
            Stage::Creating => StageView::Creating,
            Stage::Choosing { interactive } => StageView::Choosing { interactive: *interactive },
            Stage::Selecting { tasks } => StageView::Selecting { tasks: task_views(tasks@) },
            Stage::Reading { change, report } => StageView::Reading {
                change: change@,
                report: *report,
            },
            Stage::Updating { report } => StageView::Updating { report: *report },
            Stage::Listing { json } => StageView::Listing { json: *json },
            Stage::Processing => StageView::Processing,
            Stage::Reviewing => StageView::Reviewing,
            Stage::Over => StageView::Over,
        }
    }
}

/// What a command wants done next.
#[derive(Debug, PartialEq, Eq)]
pub enum Step {
    /// Send a request.
    Send(ApiRequest),
    /// Let one of the tasks be selected that were just listed.
    Select,
    /// Go through the inbox.
    Process,
    /// Go through the lists under review.
    Review,
    /// Print these lines; the command is over.
    Print(Vec<String>),
    /// Print these tasks as JSON; the command is over.
    PrintJson(Vec<Task>),
    /// The command fails.
    Fail(String),
}

/// What a command wants done next.
pub enum StepView {
    Send(RequestView),
    Select,
    Process,
    Review,
    Print(Seq<Seq<char>>),
    PrintJson(Seq<TaskView>),
    Fail(Seq<char>),
}

impl View for Step {
    type V = StepView;

    open spec fn view(&self) -> StepView {
        match self {
            Step::Send(r) => StepView::Send(r@),
            Step::Select => StepView::Select,
            Step::Process => StepView::Process,
            Step::Review => StepView::Review,
            Step::Print(lines) => StepView::Print(texts(lines@)),
            Step::PrintJson(tasks) => StepView::PrintJson(task_views(tasks@)),
            Step::Fail(m) => StepView::Fail(m@),
        }
    }
}

/// What came of a step.
#[derive(Debug, PartialEq, Eq)]
pub enum Outcome {
    /// The server answered with a task.
    Task(Task),
    /// The server answered with a list of tasks.
    Tasks(Vec<Task>),
    /// A task was selected, or none.
    Selected(Option<usize>),
    /// So many tasks were dealt with.
    Count(usize),
}

/// What came of a step.
pub enum OutcomeView {
    Task(TaskView),
    Tasks(Seq<TaskView>),
    Selected(Option<usize>),
    Count(usize),
}

impl View for Outcome {
    type V = OutcomeView;

    open spec fn view(&self) -> OutcomeView {
        match self {
            Outcome::Task(t) => OutcomeView::Task(t@),
            Outcome::Tasks(v) => OutcomeView::Tasks(task_views(v@)),
            Outcome::Selected(i) => OutcomeView::Selected(*i),
            Outcome::Count(n) => OutcomeView::Count(*n),
        }
    }
}

/// The tasks that can be picked.
pub open spec fn pickable() -> FilterView {
    FilterView {
        list: Some(TaskList::NextAction),
        state: Some(TaskState::Pending),
        labels: LabelMap::empty(),
    }
}

/// The state that a move asks for, from the task as it was read.
pub open spec fn moved(t: TaskView, change: MoveView) -> TargetView {
    edited(t, change.list, change.state, change.labels, change.description)
}

/// A move begins by reading the task.
pub open spec fn begin_move(base: Seq<char>, change: MoveView, report: Report) -> (
    StageView,
    StepView,
) {
    (StageView::Reading { change, report }, StepView::Send(get_request(base, change.id)))
}

/// The command is over, with this to print.
pub open spec fn finish(lines: Seq<Seq<char>>) -> (StageView, StepView) {
    (StageView::Over, StepView::Print(lines))
}

/// The command is over, with an error.
pub open spec fn fail(message: Seq<char>) -> (StageView, StepView) {
    (StageView::Over, StepView::Fail(message))
}

/// The first step of a command.
pub open spec fn begun(base: Seq<char>, command: CommandView, interactive: bool) -> (
    StageView,
    StepView,
) {
    match command {
        CommandView::Add { words } => (
            StageView::Creating,
            StepView::Send(create_request(base, join(words, " "@))),
        ),
        CommandView::Pick { chosen } => match chosen {
            Some(id) => begin_move(
                base,
                plain_move(id, TaskList::NextAction, TaskState::Doing),
                Report::Doing,
            ),
            None => (
                StageView::Choosing { interactive },
                StepView::Send(list_request(base, pickable())),
            ),
        },
        CommandView::Done { id, labels, description } => match collected_labels(labels) {
            Err(m) => fail(m),
            Ok(labels) => begin_move(
                base,
                MoveView {
                    id,
                    list: TaskList::Archive,
                    state: TaskState::Done,
                    labels,
                    description,
                },
                Report::Archived,
            ),
        },
        CommandView::List { list, labels, state, json } => match collected_labels(labels) {
            Err(m) => fail(m),
            Ok(labels) => (
                StageView::Listing { json },
                StepView::Send(
                    list_request(base, FilterView { list: Some(list), state, labels }),
                ),
            ),
        },
        CommandView::Process => if interactive {
            (StageView::Processing, StepView::Process)
        } else {
            fail(needs_terminal("process"@))
        },
        CommandView::Review => if interactive {
            (StageView::Reviewing, StepView::Review)
        } else {
            fail(needs_terminal("review"@))
        },
    }
}

/// The outcomes that a stage can take in.
pub open spec fn expected(stage: StageView, outcome: OutcomeView) -> bool {
    match stage {
        StageView::Creating => outcome is Task,
        StageView::Choosing { .. } => outcome is Tasks,
        StageView::Selecting { tasks } => outcome is Selected && (outcome->Selected_0 is Some
            ==> outcome->Selected_0->0 < tasks.len()),
        StageView::Reading { .. } => outcome is Task,
        StageView::Updating { .. } => outcome is Task,
        StageView::Listing { .. } => outcome is Tasks,
        StageView::Processing => outcome is Count,
        StageView::Reviewing => outcome is Count,
        StageView::Over => false,
    }
}

/// The next step of a command.
pub open spec fn advanced(base: Seq<char>, stage: StageView, outcome: OutcomeView) -> (
    StageView,
    StepView,
) {
    match (stage, outcome) {
        (StageView::Creating, OutcomeView::Task(t)) => finish(seq![captured(t)]),
        (StageView::Choosing { interactive }, OutcomeView::Tasks(tasks)) => if tasks.len() == 0 {
            finish(seq!["no pending task in next-action"@])
        } else if interactive {
            (StageView::Selecting { tasks }, StepView::Select)
        } else {
            fail(pick_needs_id(tasks))
        },
        (StageView::Selecting { tasks }, OutcomeView::Selected(choice)) => match choice {
            None => finish(seq!["no pending task in next-action"@]),
            Some(i) => begin_move(
                base,
                plain_move(tasks[i as int].id, TaskList::NextAction, TaskState::Doing),
                Report::Doing,
            ),
        },
        (StageView::Reading { change, report }, OutcomeView::Task(t)) => if report
            == Report::Archived && t.state != TaskState::Doing {
            fail(done_needs_doing(t))
        } else {
            (
                StageView::Updating { report },
                StepView::Send(update_request(base, change.id, moved(t, change))),
            )
        },
        (StageView::Updating { report }, OutcomeView::Task(t)) => finish(seq![reported(report, t)]),
        (StageView::Listing { json }, OutcomeView::Tasks(tasks)) => if json {
            (StageView::Over, StepView::PrintJson(tasks))
        } else {
            finish(task_lines(tasks))
        },
        (StageView::Processing, OutcomeView::Count(n)) => finish(
            seq!["processed "@ + decimal(n as int) + " inbox task(s)"@],
        ),
        (StageView::Reviewing, OutcomeView::Count(n)) => finish(
            seq!["reviewed "@ + decimal(n as int) + " task(s)"@],
        ),
        _ => fail(Seq::empty()),
    }
}

fn print_line(text: String) -> (r: (Stage, Step))
    ensures
        (r.0@, r.1@) == finish(seq![text@]),
{
    let mut lines: Vec<String> = Vec::new();
    lines.push(text);
    assert(texts(lines@) =~= seq![text@]);
    (Stage::Over, Step::Print(lines))
}

/// Reads a task and then moves it.
pub fn begin_change(client: &ApiClient, change: Move, report: Report) -> (r: (Stage, Step))
    ensures
        (r.0@, r.1@) == begin_move(client@, change@, report),
{
    let request = client.get(change.id);
    (Stage::Reading { change, report }, Step::Send(request))
}

/// Decides the first step of a command; `interactive` says whether there is a
/// terminal to work on.
pub fn run_client_command(client: &ApiClient, command: ClientCommand, interactive: bool) -> (r: (
    Stage,
    Step,
))
    ensures
        (r.0@, r.1@) == begun(client@, command@, interactive),
{
    match command {
        ClientCommand::Add { words } => {
            let request = client.create(join_all(&words, " "));
            (Stage::Creating, Step::Send(request))
        },
        ClientCommand::Pick { chosen } => match chosen {
            Some(id) => begin_change(
                client,
                move_only(id, TaskList::NextAction, TaskState::Doing),
                Report::Doing,
            ),
            None => {
                let filter = list_filter(TaskList::NextAction, Some(TaskState::Pending));
                (Stage::Choosing { interactive }, Step::Send(client.list(&filter)))
            },
        },
        ClientCommand::Done { id, labels, description } => match labels_from_pairs(&labels) {
            Err(m) => (Stage::Over, Step::Fail(m)),
            Ok(labels) => begin_change(
                client,
                Move {
                    id,
                    list: TaskList::Archive,
                    state: TaskState::Done,
                    edit: TaskEdit { labels, description },
                },
                Report::Archived,
            ),
        },
        ClientCommand::List { list, labels, state, json } => match labels_from_pairs(&labels) {
            Err(m) => (Stage::Over, Step::Fail(m)),
            Ok(labels) => {
                let filter = TaskFilter { list: Some(list), state, labels };
                (Stage::Listing { json }, Step::Send(client.list(&filter)))
            },
        },
        ClientCommand::Process => match require_terminal("process", interactive) {
            Err(m) => (Stage::Over, Step::Fail(m)),
            Ok(_) => (Stage::Processing, Step::Process),
        },
        ClientCommand::Review => match require_terminal("review", interactive) {
            Err(m) => (Stage::Over, Step::Fail(m)),
            Ok(_) => (Stage::Reviewing, Step::Review),
        },
    }
}

/// Decides the next step of a command from what came of the last one.
pub fn advance(client: &ApiClient, stage: Stage, outcome: Outcome) -> (r: (Stage, Step))
    requires
        expected(stage@, outcome@),
    ensures
        (r.0@, r.1@) == advanced(client@, stage@, outcome@),
{
    match (stage, outcome) {
        (Stage::Creating, Outcome::Task(task)) => print_line(capture_text(&task)),
        (Stage::Choosing { interactive }, Outcome::Tasks(tasks)) => {
            if tasks.len() == 0 {
                print_line("no pending task in next-action".to_owned())
            } else if interactive {
                (Stage::Selecting { tasks }, Step::Select)
            } else {
                (Stage::Over, Step::Fail(missing_id_text(&tasks)))
            }
        },
        (Stage::Selecting { tasks }, Outcome::Selected(choice)) => match choice {
            None => print_line("no pending task in next-action".to_owned()),
            Some(i) => {
                assert(task_views(tasks@)[i as int] == tasks@[i as int]@);
                begin_change(
                    client,
                    move_only(tasks[i].metadata.id, TaskList::NextAction, TaskState::Doing),
                    Report::Doing,
                )
            },
        },
        (Stage::Reading { change, report }, Outcome::Task(task)) => {
            if report == Report::Archived && task.state != TaskState::Doing {
                return (Stage::Over, Step::Fail(not_doing_text(&task)));
            }
            let request = client.update_state(
                change.id,
                task,
                change.list,
                change.state,
                change.edit,
            );
            (Stage::Updating { report }, Step::Send(request))
        },
        (Stage::Updating { report }, Outcome::Task(task)) => print_line(report_text(report, &task)),
        (Stage::Listing { json }, Outcome::Tasks(tasks)) => {
            if json {
                (Stage::Over, Step::PrintJson(tasks))
            } else {
                (Stage::Over, Step::Print(print_tasks(&tasks)))
            }
        },
        (Stage::Processing, Outcome::Count(n)) => {
            let mut out: String = "processed ".to_owned();
            out.append(unsigned_text(n as u64).as_str());
            out.append(" inbox task(s)");
            print_line(out)
        },
        (Stage::Reviewing, Outcome::Count(n)) => {
            let mut out: String = "reviewed ".to_owned();
            out.append(unsigned_text(n as u64).as_str());
            out.append(" task(s)");
            print_line(out)
        },
        _ => (Stage::Over, Step::Fail(String::new())),
    }
}

impl Stage {
    /// The tasks to select from, while one is being selected.
    pub fn choices(&self) -> (r: Option<&Vec<Task>>)
        ensures
            r is Some <==> self is Selecting,
            r is Some ==> self@ == (StageView::Selecting { tasks: task_views(r->0@) }),
    {
        match self {
            Stage::Selecting { tasks } => Some(tasks),
            _ => None,
        }
    }
}

/// The server allows that a task be picked which is offered for that.
pub proof fn lemma_pick_allowed(t: TaskView)
    requires
        pickable().matches(t),
    ensures
        change_allowed(t.list, t.state, TaskList::NextAction, TaskState::Doing),
{
}

/// A `done` command asks the server for a change if and only if the task that it
/// read is a doing one; otherwise it fails.
pub proof fn lemma_done_needs_doing(base: Seq<char>, change: MoveView, t: TaskView)
    ensures
        ({
            let next = advanced(
                base,
                StageView::Reading { change, report: Report::Archived },
                OutcomeView::Task(t),
            );
            &&& t.state == TaskState::Doing <==> next.1 is Send
            &&& t.state != TaskState::Doing <==> next == fail(done_needs_doing(t))
        }),
{
}

/// If the log still has the task at the revision of `t`, then it has it as `t`.
pub open spec fn agrees_with(log: LogView, id: TaskId, t: TaskView) -> bool {
    has_task(log.events, id) && latest(log.events, id).revision == t.revision ==> latest(
        log.events,
        id,
    ).task() == t
}

/// A `done` command changes a task only if it still is as the command read it, and
/// is a doing one.
pub proof fn lemma_done_changes_doing(
    log: LogView,
    base: Seq<char>,
    change: MoveView,
    t: TaskView,
    request: UpdateTaskRequest,
    now: Timestamp,
)
    requires
        agrees_with(log, change.id, t),
        change.list == TaskList::Archive,
        change.state == TaskState::Done,
        request@ == moved(t, change),
        advanced(
            base,
            StageView::Reading { change, report: Report::Archived },
            OutcomeView::Task(t),
        ).1 is Send,
    ensures
        update_result(log, change.id, request, now) is Ok ==> {
            &&& latest(log.events, change.id).task() == t
            &&& latest(log.events, change.id).state == TaskState::Doing
        },
{
}

/// A `pick` command changes a task only if it still is as the command read it, and
/// is a pending next action.
pub proof fn lemma_pick_changes_pending(
    log: LogView,
    id: TaskId,
    t: TaskView,
    request: UpdateTaskRequest,
    now: Timestamp,
)
    requires
        log.consistent(),
        agrees_with(log, id, t),
        request@ == moved(t, plain_move(id, TaskList::NextAction, TaskState::Doing)),
    ensures
        update_result(log, id, request, now) is Ok ==> {
            let before = latest(log.events, id);
            &&& before.task() == t
            &&& before.list_name == TaskList::NextAction
            &&& before.state == TaskState::Pending
        },
{
    if update_result(log, id, request, now) is Ok {
        let s = log.events;
        let i = choose|i: int| 0 <= i < s.len() && (#[trigger] s[i]).task_id == id;
        let k = lemma_latest_exists(s, i);
        lemma_latest(s, id, k);
        assert(event_sound(s[k]));
        assert(t.labels.union_prefer_right(LabelMap::empty()) =~= t.labels);
    }
}

} // verus!
