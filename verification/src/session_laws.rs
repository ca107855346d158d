//! What the sessions, menus and texts do with a sequence of answers and keys.

use vstd::prelude::*;
use vstd::string::*;
use crate::api::present;
use crate::client::collected_labels;
use crate::domain::{list_text, state_text, TaskList, TaskState, TaskView};
use crate::ids::hyphenated;
use crate::labels::LabelMap;
use crate::numbers::decimal;
use crate::screens::{ascii_lower, choice_texts, chosen, column_after, menu_choices, menu_prompt};
use crate::screens::{offers, selection, task_heading, task_place, written, Choosing, EditingView};
use crate::screens::{Key, Menu, Selecting};
use crate::sessions::{entered_description, entered_labels, label_pieces, to_process};
use crate::sessions::{to_review_first, to_review_last, ActionView, AnswerView, InboxView, MoveView};
use crate::sessions::{ReviewView, StageView, Target};
use crate::text::{is_first, lemma_split_at, split, trimmed};

verus! {

broadcast use vstd::string::group_string_axioms;

// ------------------------------------------------------------- what is entered

/// What is entered before and after a comma is read piece by piece: a piece without
/// a comma counts without the white space around it, and not at all if it is blank.
pub proof fn lemma_label_pieces(a: Seq<char>, b: Seq<char>)
    requires
        !a.contains(','),
    ensures
        label_pieces(a) == if trimmed(a).len() > 0 {
            seq![trimmed(a)]
        } else {
            Seq::<Seq<char>>::empty()
        },
        label_pieces(a + seq![','] + b) == label_pieces(a) + label_pieces(b),
{
    let s = a + seq![','] + b;
    let n = a.len() as int;
    let trim = |x: Seq<char>| trimmed(x);
    let p = |x: Seq<char>| x.len() > 0;
    assert(is_first(s, ',', n)) by {
        assert(s[n] == ',');
        assert forall|j: int| 0 <= j < n implies s[j] != ',' by {
            assert(s[j] == a[j]);
        }
    }
    lemma_split_at(s, ',', n);
    assert(s.take(n) =~= a);
    assert(s.skip(n + 1) =~= b);
    assert(split(a, ',') =~= seq![a]);
    assert(split(s, ',') =~= split(a, ',') + split(b, ','));
    let left = split(a, ',').map_values(trim);
    let right = split(b, ',').map_values(trim);
    assert(split(s, ',').map_values(trim) =~= left + right);
    Seq::filter_distributes_over_add(left, right, p);
    lemma_present_one(trimmed(a));
    assert(left =~= seq![trimmed(a)]);
}

proof fn lemma_present_one(x: Seq<char>)
    ensures
        present(seq![x]) == if x.len() > 0 {
            seq![x]
        } else {
            Seq::<Seq<char>>::empty()
        },
{
    reveal(Seq::filter);
    let p = |y: Seq<char>| y.len() > 0;
    let one = seq![x];
    assert(one.drop_last() =~= Seq::<Seq<char>>::empty());
    assert(one.drop_last().filter(p) =~= Seq::<Seq<char>>::empty());
    assert(one.filter(p) =~= if x.len() > 0 {
        seq![x]
    } else {
        Seq::<Seq<char>>::empty()
    });
}

/// The labels of an entry are those of its pieces; no entry has none.
pub proof fn lemma_entered_labels(text: Seq<char>)
    ensures
        entered_labels(Some(text)) == collected_labels(label_pieces(text)),
        entered_labels(None) == Ok::<LabelMap, Seq<char>>(LabelMap::empty()),
{
    let none = Seq::<char>::empty();
    let nothing = Seq::<Seq<char>>::empty();
    lemma_label_pieces(none, none);
    assert(trimmed(none).len() == 0);
    assert(label_pieces(none) == nothing);
    assert(collected_labels(nothing) == Ok::<LabelMap, Seq<char>>(LabelMap::empty()));
}

/// An entered description is taken as it was written, unless it is blank.
pub proof fn lemma_entered_description(text: Seq<char>)
    ensures
        trimmed(text).len() > 0 ==> entered_description(Some(text)) == Some(text),
        trimmed(text).len() == 0 ==> entered_description(Some(text)) is None,
        entered_description(None) is None,
{
}

// ------------------------------------------------------------------- the inbox

/// Whatever the target, the move that follows the two entries takes the current
/// task there, with exactly the labels that the first entry writes and the
/// description of the second. If the first entry writes no labels, the session
/// fails and nothing is moved.
pub proof fn lemma_inbox_edits(
    v: InboxView,
    t: Target,
    labels: Option<Seq<char>>,
    description: Option<Seq<char>>,
)
    requires
        v.valid(),
        v.stage == StageView::Labels(t),
    ensures
        entered_labels(labels) matches Err(m) ==> v.after(AnswerView::Entered(labels)).1
            == ActionView::Fail(m) && v.after(AnswerView::Entered(labels)).0.stage is Over,
        entered_labels(labels) matches Ok(l) ==> {
            let first = v.after(AnswerView::Entered(labels));
            let last = first.0.after(AnswerView::Entered(description));
            &&& first.1 matches ActionView::Prompt { title, prompt } && prompt
                == "Description (blank keeps current)"@
            &&& first.0.expects(AnswerView::Entered(description))
            &&& last.1 matches ActionView::Change(m) && {
                &&& m.id == v.tasks[v.index].id
                &&& m.labels == l
                &&& description is None ==> m.description is None
                &&& description is Some && trimmed(description->0).len() > 0 ==> m.description
                    == description
                &&& description is Some && trimmed(description->0).len() == 0 ==> m.description
                    is None
                &&& t == Target::Done ==> m.list == TaskList::Archive && m.state == TaskState::Done
                &&& t == Target::NextAction ==> m.list == TaskList::NextAction && m.state
                    == TaskState::Pending
                &&& t == Target::WaitingFor ==> m.list == TaskList::WaitingFor && m.state
                    == TaskState::Pending
            }
            &&& last.0.stage is Moving
            &&& last.0.index == v.index
            &&& last.0.tasks == v.tasks
        },
{
}

/// An actionable task that is deferred (`f`) or delegated (`g`) goes to the next
/// actions or to those that are waited for, with the labels and the description
/// that are entered.
pub proof fn lemma_inbox_defer(
    v: InboxView,
    c: char,
    labels: Option<Seq<char>>,
    description: Option<Seq<char>>,
    l: LabelMap,
)
    requires
        v.valid(),
        v.stage is Actionable,
        c == 'f' || c == 'g',
        entered_labels(labels) == Ok::<LabelMap, Seq<char>>(l),
    ensures
        ({
            let a = v.after(AnswerView::Chosen('y'));
            let b = a.0.after(AnswerView::Chosen(c));
            let d = b.0.after(AnswerView::Entered(labels));
            let e = d.0.after(AnswerView::Entered(description));
            &&& a.1 matches ActionView::Ask { title, menu } && menu == Menu::NextStep
            &&& b.1 matches ActionView::Prompt { title, prompt } && prompt
                == "Labels (comma-separated key:value; blank is fine)"@
            &&& e.1 matches ActionView::Change(m) && {
                &&& m.id == v.tasks[v.index].id
                &&& m.list == if c == 'f' {
                    TaskList::NextAction
                } else {
                    TaskList::WaitingFor
                }
                &&& m.state == TaskState::Pending
                &&& m.labels == l
                &&& m.description == if description is Some && trimmed(description->0).len() > 0 {
                    description
                } else {
                    None
                }
            }
        }),
{
}

/// An actionable task that is done right away (`d`) is first marked as begun, with
/// nothing else changed. Then it is archived as done, with the labels and the
/// description that are entered, or as trash.
pub proof fn lemma_inbox_do_now(
    v: InboxView,
    labels: Option<Seq<char>>,
    description: Option<Seq<char>>,
    l: LabelMap,
)
    requires
        v.valid(),
        v.stage is Actionable,
        entered_labels(labels) == Ok::<LabelMap, Seq<char>>(l),
    ensures
        ({
            let id = v.tasks[v.index].id;
            let a = v.after(AnswerView::Chosen('y'));
            let b = a.0.after(AnswerView::Chosen('d'));
            let asked = b.0.after(AnswerView::Changed);
            let done = asked.0.after(AnswerView::Chosen('d'));
            let d = done.0.after(AnswerView::Entered(labels));
            let e = d.0.after(AnswerView::Entered(description));
            let trash = asked.0.after(AnswerView::Chosen('x'));
            &&& b.1 == ActionView::Change(
                MoveView {
                    id,
                    list: TaskList::Inbox,
                    state: TaskState::Doing,
                    labels: LabelMap::empty(),
                    description: None,
                },
            )
            &&& asked.1 matches ActionView::Ask { title, menu } && menu == Menu::Outcome
            &&& done.1 matches ActionView::Prompt { title, prompt } && prompt
                == "Labels (comma-separated key:value; blank is fine)"@
            &&& e.1 matches ActionView::Change(m) && {
                &&& m.id == id
                &&& m.list == TaskList::Archive
                &&& m.state == TaskState::Done
                &&& m.labels == l
                &&& m.description == if description is Some && trimmed(description->0).len() > 0 {
                    description
                } else {
                    None
                }
            }
            &&& trash.1 == ActionView::Change(
                MoveView {
                    id,
                    list: TaskList::Archive,
                    state: TaskState::Trash,
                    labels: LabelMap::empty(),
                    description: None,
                },
            )
            &&& trash.0.stage is Moving
        }),
{
}

/// A task that calls for no action (`n`) goes to the trash (`x`) or to those for
/// some day (`m`), with nothing else changed.
pub proof fn lemma_inbox_dispose(v: InboxView, c: char)
    requires
        v.valid(),
        v.stage is Actionable,
        c == 'x' || c == 'm',
    ensures
        ({
            let a = v.after(AnswerView::Chosen('n'));
            let b = a.0.after(AnswerView::Chosen(c));
            &&& a.1 matches ActionView::Ask { title, menu } && menu == Menu::Disposal
            &&& b.1 matches ActionView::Change(m) && {
                &&& m.id == v.tasks[v.index].id
                &&& c == 'x' ==> m.list == TaskList::Archive && m.state == TaskState::Trash
                &&& c == 'm' ==> m.list == TaskList::SomedayMaybe && m.state == TaskState::Pending
                &&& m.labels == LabelMap::empty()
                &&& m.description is None
            }
            &&& b.0.stage is Moving
        }),
{
}

/// Once a task has been moved the session asks whether the next one is actionable,
/// and ends after the last with the number of all of them. Where a question is put,
/// the session can be left; the tasks before the current one then count.
pub proof fn lemma_inbox_goes_on(v: InboxView)
    requires
        v.valid(),
        !(v.stage is Over),
    ensures
        v.stage is Moving && v.index + 1 < v.tasks.len() ==> {
            let n = v.after(AnswerView::Changed);
            &&& n.0.index == v.index + 1
            &&& n.0.tasks == v.tasks
            &&& n.0.stage is Actionable
            &&& n.1 == (ActionView::Ask {
                title: "Process inbox"@ + " · "@ + decimal(v.index + 2) + " of "@ + decimal(
                    v.tasks.len() as int,
                ),
                menu: Menu::Actionable,
            })
        },
        v.stage is Moving && v.index + 1 == v.tasks.len() ==> {
            let n = v.after(AnswerView::Changed);
            &&& n.0.stage is Over
            &&& n.1 == ActionView::Finish(v.tasks.len() as int)
        },
        v.stage is Actionable || v.stage is NextStep || v.stage is Outcome || v.stage is Disposal
            ==> {
            &&& v.after(AnswerView::Quit).0.stage is Over
            &&& v.after(AnswerView::Quit).1 == ActionView::Finish(v.index)
        },
{
}

/// Every question and every prompt carries the position of the current task.
pub proof fn lemma_inbox_titles(v: InboxView, a: AnswerView)
    requires
        v.valid(),
        v.expects(a),
        !(v.stage is Moving),
    ensures
        v.after(a).1 matches ActionView::Ask { title, menu } ==> title == "Process inbox"@ + " · "@
            + decimal(v.index + 1) + " of "@ + decimal(v.tasks.len() as int),
        v.after(a).1 matches ActionView::Prompt { title, prompt } ==> title == "Process inbox"@
            + " · "@ + decimal(v.index + 1) + " of "@ + decimal(v.tasks.len() as int),
        v.after(a).0.tasks == v.tasks,
        v.after(a).0.index == v.index,
{
}

// ------------------------------------------------------------------ the review

/// A task under review is kept (`k`), which moves nothing and turns to the next
/// one; moved to some day (`m`), to the next actions (`a`) or to the trash (`x`),
/// with nothing else changed; or the review is left.
pub proof fn lemma_review_answers(v: ReviewView)
    requires
        v.valid(),
        !v.over,
        !v.moving,
    ensures
        ({
            let part = if v.in_someday {
                v.someday
            } else {
                v.next_actions
            };
            let id = part[v.index].id;
            let moved = |list: TaskList, state: TaskState|
                ActionView::Change(
                    MoveView { id, list, state, labels: LabelMap::empty(), description: None },
                );
            &&& v.after(AnswerView::Chosen('m')).1 == moved(
                TaskList::SomedayMaybe,
                TaskState::Pending,
            )
            &&& v.after(AnswerView::Chosen('a')).1 == moved(
                TaskList::NextAction,
                TaskState::Pending,
            )
            &&& v.after(AnswerView::Chosen('x')).1 == moved(TaskList::Archive, TaskState::Trash)
            &&& forall|c: char|
                c == 'm' || c == 'a' || c == 'x' ==> (#[trigger] v.after(
                    AnswerView::Chosen(c),
                )).0 == (ReviewView { moving: true, ..v })
            &&& v.after(AnswerView::Chosen('k')) == (ReviewView { moving: true, ..v }).after(
                AnswerView::Changed,
            )
            &&& v.after(AnswerView::Quit).0.over
            &&& v.after(AnswerView::Quit).1 == ActionView::Finish(
                if v.in_someday {
                    v.next_actions.len() + v.index
                } else {
                    v.index
                },
            )
        }),
{
}

/// After each task the review turns to the next of its part, from the last next
/// action to the first task for some day, and ends after the last of those with the
/// number of all of them.
pub proof fn lemma_review_goes_on(v: ReviewView)
    requires
        v.valid(),
        !v.over,
        v.moving,
    ensures
        ({
            let n = v.after(AnswerView::Changed);
            &&& n.0.next_actions == v.next_actions
            &&& n.0.someday == v.someday
            &&& !v.in_someday && v.index + 1 < v.next_actions.len() ==> n.0.index == v.index + 1
                && !n.0.in_someday && !n.0.over && !n.0.moving && n.1 == (ActionView::Ask {
                title: "Review next actions"@ + " · "@ + decimal(v.index + 2) + " of "@ + decimal(
                    v.next_actions.len() as int,
                ),
                menu: Menu::NextAction,
            })
            &&& !v.in_someday && v.index + 1 == v.next_actions.len() && v.someday.len() > 0
                ==> n.0.index == 0 && n.0.in_someday && !n.0.over && !n.0.moving && n.1 == (
            ActionView::Ask {
                title: "Review someday/maybe"@ + " · "@ + decimal(1) + " of "@ + decimal(
                    v.someday.len() as int,
                ),
                menu: Menu::Someday,
            })
            &&& !v.in_someday && v.index + 1 == v.next_actions.len() && v.someday.len() == 0
                ==> n.0.over && n.1 == ActionView::Finish(v.next_actions.len() as int)
            &&& v.in_someday && v.index + 1 < v.someday.len() ==> n.0.index == v.index + 1
                && n.0.in_someday && !n.0.over && !n.0.moving && n.1 == (ActionView::Ask {
                title: "Review someday/maybe"@ + " · "@ + decimal(v.index + 2) + " of "@ + decimal(
                    v.someday.len() as int,
                ),
                menu: Menu::Someday,
            })
            &&& v.in_someday && v.index + 1 == v.someday.len() ==> n.0.over && n.1
                == ActionView::Finish((v.next_actions.len() + v.someday.len()) as int)
        }),
{
}

/// Which tasks the sessions go through: the pending ones of the inbox, of the next
/// actions and of those for some day, whatever their labels.
pub proof fn lemma_session_tasks(t: TaskView)
    ensures
        to_process().matches(t) <==> t.list == TaskList::Inbox && t.state == TaskState::Pending,
        to_review_first().matches(t) <==> t.list == TaskList::NextAction && t.state
            == TaskState::Pending,
        to_review_last().matches(t) <==> t.list == TaskList::SomedayMaybe && t.state
            == TaskState::Pending,
{
}

// ------------------------------------------------------------------------ keys

/// A letter of ASCII in lower case: 32 further on in the alphabet of codes.
pub proof fn lemma_lower_case(c: char)
    ensures
        65 <= c as u32 <= 90 ==> ascii_lower(c) as u32 == c as u32 + 32,
        !(65 <= c as u32 <= 90) ==> ascii_lower(c) == c,
{
}

/// Escape and `q` leave a menu; a key of the menu chooses its entry, whichever case
/// it is typed in; nothing else has an effect.
pub proof fn lemma_menu_keys(m: Menu, c: char)
    ensures
        chosen(m, Key::Esc) == Choosing::Quit,
        chosen(m, Key::Enter) == Choosing::Ignored,
        chosen(m, Key::Backspace) == Choosing::Ignored,
        chosen(m, Key::Up) == Choosing::Ignored,
        chosen(m, Key::Down) == Choosing::Ignored,
        chosen(m, Key::Other) == Choosing::Ignored,
        c == 'q' || c == 'Q' ==> chosen(m, Key::Char(c)) == Choosing::Quit,
        chosen(m, Key::Char(c)) == chosen(m, Key::Char(ascii_lower(c))),
        c != 'q' && !(65 <= c as u32 <= 90) ==> chosen(m, Key::Char(c)) == if offers(m, c) {
            Choosing::Chosen(c)
        } else {
            Choosing::Ignored
        },
{
}

/// The keys of each menu.
pub proof fn lemma_menu_entries(c: char)
    ensures
        offers(Menu::Actionable, c) <==> c == 'y' || c == 'n' || c == 'q',
        offers(Menu::NextStep, c) <==> c == 'd' || c == 'f' || c == 'g' || c == 'q',
        offers(Menu::Outcome, c) <==> c == 'd' || c == 'x' || c == 'q',
        offers(Menu::Disposal, c) <==> c == 'x' || c == 'm' || c == 'q',
        offers(Menu::NextAction, c) <==> c == 'k' || c == 'm' || c == 'x' || c == 'q',
        offers(Menu::Someday, c) <==> c == 'k' || c == 'a' || c == 'x' || c == 'q',
{
    assert(menu_choices(Menu::Actionable)[0].0 == 'y');
    assert(menu_choices(Menu::Actionable)[1].0 == 'n');
    assert(menu_choices(Menu::Actionable)[2].0 == 'q');
    assert(menu_choices(Menu::NextStep)[0].0 == 'd');
    assert(menu_choices(Menu::NextStep)[1].0 == 'f');
    assert(menu_choices(Menu::NextStep)[2].0 == 'g');
    assert(menu_choices(Menu::NextStep)[3].0 == 'q');
    assert(menu_choices(Menu::Outcome)[0].0 == 'd');
    assert(menu_choices(Menu::Outcome)[1].0 == 'x');
    assert(menu_choices(Menu::Outcome)[2].0 == 'q');
    assert(menu_choices(Menu::Disposal)[0].0 == 'x');
    assert(menu_choices(Menu::Disposal)[1].0 == 'm');
    assert(menu_choices(Menu::Disposal)[2].0 == 'q');
    assert(menu_choices(Menu::NextAction)[0].0 == 'k');
    assert(menu_choices(Menu::NextAction)[1].0 == 'm');
    assert(menu_choices(Menu::NextAction)[2].0 == 'x');
    assert(menu_choices(Menu::NextAction)[3].0 == 'q');
    assert(menu_choices(Menu::Someday)[0].0 == 'k');
    assert(menu_choices(Menu::Someday)[1].0 == 'a');
    assert(menu_choices(Menu::Someday)[2].0 == 'x');
    assert(menu_choices(Menu::Someday)[3].0 == 'q');
}

/// How the entries of a menu are shown: one for one, the key in brackets and then
/// what it stands for.
pub proof fn lemma_menu_shown(m: Menu, i: int)
    requires
        0 <= i < menu_choices(m).len(),
    ensures
        choice_texts(m).len() == menu_choices(m).len(),
        choice_texts(m)[i].0 == " ["@ + seq![menu_choices(m)[i].0] + "] "@,
        choice_texts(m)[i].1 == menu_choices(m)[i].1 + "  "@,
{
}

/// Typing adds to the end of a text, Backspace takes back what was typed last, Enter
/// confirms the text as it is and Escape drops it; nothing else has an effect.
pub proof fn lemma_typing(s: Seq<char>, c: char)
    ensures
        written(s, Key::Char(c)) == EditingView::Writing(s + seq![c]),
        written(s + seq![c], Key::Backspace) == EditingView::Writing(s),
        written(Seq::empty(), Key::Backspace) == EditingView::Writing(Seq::empty()),
        written(s, Key::Enter) == EditingView::Confirmed(s),
        written(s, Key::Esc) is Cancelled,
        written(s, Key::Up) == EditingView::Writing(s),
        written(s, Key::Down) == EditingView::Writing(s),
        written(s, Key::Other) == EditingView::Writing(s),
{
    assert(s.push(c) =~= s + seq![c]);
    assert((s + seq![c]).drop_last() =~= s);
}

/// The cursor stands right after the text, inside the frame: never beyond the last
/// column before the border.
pub proof fn lemma_cursor(x: u16, width: u16, columns: usize)
    requires
        width >= 2,
    ensures
        x + 1 + columns <= x + width - 2 ==> column_after(x, width, columns) == x + 1 + columns,
        x + 1 + columns > x + width - 2 ==> column_after(x, width, columns) == x + width - 2,
        forall|w: u16| w < 2 ==> #[trigger] column_after(x, w, columns) == x,
{
}

/// The selection moves by one and stops at both ends; Enter takes the selected task,
/// Escape and `q` none.
pub proof fn lemma_selecting(i: usize, count: usize, c: char)
    requires
        i < count,
    ensures
        selection(i, count, Key::Esc) == Selecting::Quit,
        selection(i, count, Key::Char('q')) == Selecting::Quit,
        selection(i, count, Key::Enter) == Selecting::Picked(i),
        i > 0 ==> selection(i, count, Key::Up) == Selecting::At((i - 1) as usize),
        i == 0 ==> selection(i, count, Key::Up) == Selecting::At(i),
        i + 1 < count ==> selection(i, count, Key::Down) == Selecting::At((i + 1) as usize),
        i + 1 == count ==> selection(i, count, Key::Down) == Selecting::At(i),
        selection(i, count, Key::Char('k')) == selection(i, count, Key::Up),
        selection(i, count, Key::Char('j')) == selection(i, count, Key::Down),
        c != 'q' && c != 'k' && c != 'j' ==> selection(i, count, Key::Char(c)) == Selecting::At(i),
        selection(i, count, Key::Backspace) == Selecting::At(i),
        selection(i, count, Key::Other) == Selecting::At(i),
{
}

/// The two lines that show a task.
pub proof fn lemma_task_shown(t: TaskView)
    ensures
        task_heading(t) == "#"@ + hyphenated(t.id) + "  "@ + t.description,
        task_place(t) == list_text(t.list) + " / "@ + state_text(t.state),
{
}

/// The question of each menu, and what the keys of its entries stand for.
pub proof fn lemma_menu_words(m: Menu, i: int)
    requires
        0 <= i < menu_choices(m).len(),
    ensures
        menu_prompt(m) == match m {
            Menu::Actionable => "Is this actionable?"@,
            Menu::NextStep => "What should happen next?"@,
            Menu::Outcome => "Do it now · what was the outcome?"@,
            Menu::Disposal => "What should happen to it?"@,
            Menu::NextAction => "Keep it active, move it to someday/maybe, or trash it?"@,
            Menu::Someday => "Keep it for later, activate it, or trash it?"@,
        },
        ({
            let c = menu_choices(m)[i].0;
            let word = menu_choices(m)[i].1;
            &&& c == 'y' ==> word == "yes"@
            &&& c == 'n' ==> word == "no"@
            &&& c == 'f' ==> word == "defer"@
            &&& c == 'g' ==> word == "delegate"@
            &&& c == 'k' ==> word == "keep"@
            &&& c == 'a' ==> word == "activate"@
            &&& c == 'x' ==> word == "trash"@
            &&& c == 'm' ==> word == "maybe"@
            &&& c == 'd' && m == Menu::NextStep ==> word == "do it now"@
            &&& c == 'd' && m == Menu::Outcome ==> word == "done"@
            &&& c == 'q' && m == Menu::Outcome ==> word == "quit and leave doing"@
            &&& c == 'q' && m != Menu::Outcome ==> word == "quit"@
        }),
        i + 1 == menu_choices(m).len() ==> menu_choices(m)[i].0 == 'q',
{
}

} // verus!
