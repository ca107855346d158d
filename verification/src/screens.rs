//! What the terminal screens show and how they answer to keys.

use vstd::prelude::*;
use vstd::string::*;
use unicode_width::UnicodeWidthStr;
use crate::domain::{list_text, state_text, Task, TaskView};
use crate::ids::{hyphenated, uuid_text};
use crate::labels::pair_views;

verus! {

broadcast use vstd::string::group_string_axioms;

/// A key press.
#[derive(Debug, Clone, Copy, PartialEq, Eq, Structural)]
pub enum Key {
    Esc,
    Enter,
    Backspace,
    Up,
    Down,
    Char(char),
    Other,
}

// --------------------------------------------------------------------- menus

/// The questions that are put for a task.
#[derive(Debug, Clone, Copy, PartialEq, Eq, Structural)]
pub enum Menu {
    /// Whether a task of the inbox calls for an action.
    Actionable,
    /// What becomes of an actionable task.
    NextStep,
    /// How a task that was done right away ended.
    Outcome,
    /// What becomes of a task that calls for no action.
    Disposal,
    /// What becomes of a next action under review.
    NextAction,
    /// What becomes of a task for some day under review.
    Someday,
}

/// The question of a menu.
pub open spec fn menu_prompt(m: Menu) -> Seq<char> {
    match m {
        Menu::Actionable => "Is this actionable?"@,
        Menu::NextStep => "What should happen next?"@,
        Menu::Outcome => "Do it now · what was the outcome?"@,
        Menu::Disposal => "What should happen to it?"@,
        Menu::NextAction => "Keep it active, move it to someday/maybe, or trash it?"@,
        Menu::Someday => "Keep it for later, activate it, or trash it?"@,
    }
}

/// The choices of a menu: the key of each, and what it stands for.
pub open spec fn menu_choices(m: Menu) -> Seq<(char, Seq<char>)> {
    match m {
        Menu::Actionable => seq![('y', "yes"@), ('n', "no"@), ('q', "quit"@)],
        Menu::NextStep => seq![
            ('d', "do it now"@),
            ('f', "defer"@),
            ('g', "delegate"@),
            ('q', "quit"@),
        ],
        Menu::Outcome => seq![('d', "done"@), ('x', "trash"@), ('q', "quit and leave doing"@)],
        Menu::Disposal => seq![('x', "trash"@), ('m', "maybe"@), ('q', "quit"@)],
        Menu::NextAction => seq![('k', "keep"@), ('m', "maybe"@), ('x', "trash"@), ('q', "quit"@)],
        Menu::Someday => seq![
            ('k', "keep"@),
            ('a', "activate"@),
            ('x', "trash"@),
            ('q', "quit"@),
        ],
    }
}

/// The key stands for a choice of the menu.
pub open spec fn offers(m: Menu, c: char) -> bool {
    exists|i: int| 0 <= i < menu_choices(m).len() && (#[trigger] menu_choices(m)[i]).0 == c
}

/// The views of a list of choices.
pub open spec fn choice_views(v: Seq<(char, &'static str)>) -> Seq<(char, Seq<char>)> {
    v.map_values(|e: (char, &'static str)| (e.0, e.1@))
}

impl Menu {
    /// The question of the menu.
    pub fn prompt(self) -> (r: &'static str)
        ensures
            r@ == menu_prompt(self),
    {
        match self {
            Menu::Actionable => "Is this actionable?",
            Menu::NextStep => "What should happen next?",
            Menu::Outcome => "Do it now · what was the outcome?",
            Menu::Disposal => "What should happen to it?",
            Menu::NextAction => "Keep it active, move it to someday/maybe, or trash it?",
            Menu::Someday => "Keep it for later, activate it, or trash it?",
        }
    }

    /// The choices of the menu.
    pub fn choices(self) -> (r: Vec<(char, &'static str)>)
        ensures
            choice_views(r@) == menu_choices(self),
    {
        let r = match self {
            Menu::Actionable => vec![('y', "yes"), ('n', "no"), ('q', "quit")],
            Menu::NextStep => vec![
                ('d', "do it now"),
                ('f', "defer"),
                ('g', "delegate"),
                ('q', "quit"),
            ],
            Menu::Outcome => vec![('d', "done"), ('x', "trash"), ('q', "quit and leave doing")],
            Menu::Disposal => vec![('x', "trash"), ('m', "maybe"), ('q', "quit")],
            Menu::NextAction => vec![('k', "keep"), ('m', "maybe"), ('x', "trash"), ('q', "quit")],
            Menu::Someday => vec![('k', "keep"), ('a', "activate"), ('x', "trash"), ('q', "quit")],
        };
        assert(choice_views(r@) =~= menu_choices(self));
        r
    }
}

/// An upper-case letter of ASCII in lower case; any other character as it is.
pub open spec fn ascii_lower(c: char) -> char {
    if 'A' <= c && c <= 'Z' {
        ((c as u8 + 32) as u8) as char
    } else {
        c
    }
}

/// Turns an upper-case letter of ASCII into lower case.
pub fn to_ascii_lowercase(c: char) -> (r: char)
    ensures
        r == ascii_lower(c),
{
    if 'A' <= c && c <= 'Z' {
        let byte: u8 = c as u8 + 32;
        byte as char
    } else {
        c
    }
}

/// What a key press means to a menu.
#[derive(Debug, Clone, Copy, PartialEq, Eq, Structural)]
pub enum Choosing {
    Ignored,
    Quit,
    Chosen(char),
}

/// What a key press means to a menu: Escape and `q` quit, a key of the menu
/// chooses, in either case of the letter, and any other is ignored.
pub open spec fn chosen(m: Menu, key: Key) -> Choosing {
    match key {
        Key::Esc => Choosing::Quit,
        Key::Char(c) => if ascii_lower(c) == 'q' {
            Choosing::Quit
        } else if offers(m, ascii_lower(c)) {
            Choosing::Chosen(ascii_lower(c))
        } else {
            Choosing::Ignored
        },
        _ => Choosing::Ignored,
    }
}

/// Decides what a key press means to a menu.
pub fn choose_key(menu: Menu, key: Key) -> (r: Choosing)
    ensures
        r == chosen(menu, key),
{
    match key {
        Key::Esc => Choosing::Quit,
        Key::Char(c) => {
            let lower = to_ascii_lowercase(c);
            if lower == 'q' {
                return Choosing::Quit;
            }
            let choices = menu.choices();
            let mut i: usize = 0;
            while i < choices.len()
                invariant
                    i <= choices.len(),
                    key == Key::Char(c),
                    lower == ascii_lower(c),
                    lower != 'q',
                    choice_views(choices@) == menu_choices(menu),
                    forall|j: int| 0 <= j < i ==> (#[trigger] menu_choices(menu)[j]).0 != lower,
                decreases choices.len() - i,
            {
                assert(menu_choices(menu)[i as int] == choice_views(choices@)[i as int]);
                if choices[i].0 == lower {
                    assert(offers(menu, lower));
                    return Choosing::Chosen(lower);
                }
                i = i + 1;
            }
            Choosing::Ignored
        },
        _ => Choosing::Ignored,
    }
}

// --------------------------------------------------------------------- input

/// What a key press makes of a text that is being written.
#[derive(Debug, PartialEq, Eq)]
pub enum Editing {
    Cancelled,
    Confirmed(String),
    Writing(String),
}

/// What a key press makes of a text that is being written.
pub enum EditingView {
    Cancelled,
    Confirmed(Seq<char>),
    Writing(Seq<char>),
}

impl View for Editing {
    type V = EditingView;

    open spec fn view(&self) -> EditingView {
        match self {
            Editing::Cancelled => EditingView::Cancelled,
            Editing::Confirmed(s) => EditingView::Confirmed(s@),
            Editing::Writing(s) => EditingView::Writing(s@),
        }
    }
}

/// What a key press makes of a text: Escape cancels it, Enter confirms it,
/// Backspace takes its last character away, and a character is added to it.
pub open spec fn written(value: Seq<char>, key: Key) -> EditingView {
    match key {
        Key::Esc => EditingView::Cancelled,
        Key::Enter => EditingView::Confirmed(value),
        Key::Backspace => EditingView::Writing(
            if value.len() > 0 {
                value.drop_last()
            } else {
                value
            },
        ),
        Key::Char(c) => EditingView::Writing(value.push(c)),
        _ => EditingView::Writing(value),
    }
}

/// Takes a key press into a text that is being written.
pub fn input(value: String, key: Key) -> (r: Editing)
    ensures
        r@ == written(value@, key),
{
    let mut value = value;
    match key {
        Key::Esc => Editing::Cancelled,
        Key::Enter => Editing::Confirmed(value),
        Key::Backspace => {
            let _ = value.pop();
            Editing::Writing(value)
        },
        Key::Char(c) => {
            value.push(c);
            Editing::Writing(value)
        },
        _ => Editing::Writing(value),
    }
}

/// The number of columns that `unicode_width::UnicodeWidthStr::width` gives a
/// text.
pub uninterp spec fn display_width(text: Seq<char>) -> usize;

/// `unicode_width::UnicodeWidthStr::width`: how many columns a text takes, a
/// function of the text alone. How many each character takes is left to the name.
#[verifier::external_body]
pub(crate) fn text_width(text: &str) -> (r: usize)
    ensures
        r == display_width(text@),
{
    UnicodeWidthStr::width(text)
}

/// The column of the cursor in a frame at `x` of this width, after a text that
/// takes `columns`: inside the border, and no further than its last column.
pub open spec fn column_after(x: u16, width: u16, columns: usize) -> int {
    let end = x + 1 + columns;
    let last = if width >= 2 {
        x + width - 2
    } else {
        x as int
    };
    if end < last {
        end
    } else {
        last
    }
}

/// The column of the cursor after a text that takes `columns`.
pub fn place_cursor(x: u16, width: u16, columns: usize) -> (r: u16)
    requires
        width >= 2 ==> x + width - 2 <= u16::MAX,
    ensures
        r == column_after(x, width, columns),
{
    let last: u16 = if width >= 2 {
        x + (width - 2)
    } else {
        x
    };
    if columns >= u16::MAX as usize || x == u16::MAX {
        return last;
    }
    let columns: u16 = columns as u16;
    if columns > u16::MAX - x - 1 {
        return last;
    }
    let end: u16 = x + 1 + columns;
    if end < last {
        end
    } else {
        last
    }
}

/// The column of the cursor after the text that is being written.
pub fn cursor_column(x: u16, width: u16, value: &str) -> (r: u16)
    requires
        width >= 2 ==> x + width - 2 <= u16::MAX,
    ensures
        r == column_after(x, width, display_width(value@)),
{
    place_cursor(x, width, text_width(value))
}

// ----------------------------------------------------------------- selection

/// What a key press means to a list of tasks.
#[derive(Debug, Clone, Copy, PartialEq, Eq, Structural)]
pub enum Selecting {
    Quit,
    Picked(usize),
    At(usize),
}

/// What a key press means to a list of `count` tasks with one of them selected:
/// the selection stops at both ends.
pub open spec fn selection(selected: usize, count: usize, key: Key) -> Selecting {
    match key {
        Key::Esc => Selecting::Quit,
        Key::Char('q') => Selecting::Quit,
        Key::Enter => Selecting::Picked(selected),
        Key::Up => Selecting::At(if selected > 0 { (selected - 1) as usize } else { 0 }),
        Key::Char('k') => Selecting::At(if selected > 0 { (selected - 1) as usize } else { 0 }),
        Key::Down => Selecting::At(
            if selected + 1 < count { (selected + 1) as usize } else { (count - 1) as usize },
        ),
        Key::Char('j') => Selecting::At(
            if selected + 1 < count { (selected + 1) as usize } else { (count - 1) as usize },
        ),
        _ => Selecting::At(selected),
    }
}

/// Decides what a key press means to a list of tasks.
pub fn select_task(selected: usize, count: usize, key: Key) -> (r: Selecting)
    requires
        selected < count,
    ensures
        r == selection(selected, count, key),
        r matches Selecting::At(i) ==> i < count,
        r matches Selecting::Picked(i) ==> i < count,
{
    let up: usize = if selected > 0 {
        selected - 1
    } else {
        0
    };
    let down: usize = if selected + 1 < count {
        selected + 1
    } else {
        count - 1
    };
    match key {
        Key::Esc => Selecting::Quit,
        Key::Enter => Selecting::Picked(selected),
        Key::Up => Selecting::At(up),
        Key::Down => Selecting::At(down),
        Key::Char(c) => {
            if c == 'q' {
                Selecting::Quit
            } else if c == 'k' {
                Selecting::At(up)
            } else if c == 'j' {
                Selecting::At(down)
            } else {
                Selecting::At(selected)
            }
        },
        _ => Selecting::At(selected),
    }
}

// --------------------------------------------------------------------- texts

/// The first line of a task.
pub open spec fn task_heading(t: TaskView) -> Seq<char> {
    "#"@ + hyphenated(t.id) + "  "@ + t.description
}

/// The second line of a task.
pub open spec fn task_place(t: TaskView) -> Seq<char> {
    list_text(t.list) + " / "@ + state_text(t.state)
}

/// The lines that show a task.
pub fn task_widget(task: &Task) -> (r: (String, String))
    ensures
        r.0@ == task_heading(task@),
        r.1@ == task_place(task@),
{
    let mut heading: String = "#".to_owned();
    heading.append(uuid_text(task.metadata.id).as_str());
    heading.append("  ");
    heading.append(task.description.as_str());
    let mut place: String = task.list.to_string();
    place.append(" / ");
    place.append(task.state.as_str());
    (heading, place)
}

/// A task as a line of a list to select from.
pub fn list_item(task: &Task) -> (r: String)
    ensures
        r@ == "#"@ + hyphenated(task@.id) + " "@ + task@.description,
{
    let mut line: String = "#".to_owned();
    line.append(uuid_text(task.metadata.id).as_str());
    line.append(" ");
    line.append(task.description.as_str());
    line
}

/// How a choice is shown: its key, and what it stands for.
pub open spec fn choice_text(c: (char, Seq<char>)) -> (Seq<char>, Seq<char>) {
    (" ["@ + seq![c.0] + "] "@, c.1 + "  "@)
}

/// The choices as they are shown.
pub open spec fn choice_texts(m: Menu) -> Seq<(Seq<char>, Seq<char>)> {
    menu_choices(m).map_values(|c: (char, Seq<char>)| choice_text(c))
}

/// The choices of a menu as they are shown.
pub fn render_choices(menu: Menu) -> (r: Vec<(String, String)>)
    ensures
        pair_views(r@) == choice_texts(menu),
{
    let choices = menu.choices();
    let ghost all = menu_choices(menu);
    let mut out: Vec<(String, String)> = Vec::new();
    let mut i: usize = 0;
    assert(pair_views(out@) =~= choice_texts(menu).take(0));
    while i < choices.len()
        invariant
            i <= choices.len(),
            all == menu_choices(menu),
            choice_views(choices@) == all,
            pair_views(out@) == choice_texts(menu).take(i as int),
        decreases choices.len() - i,
    {
        let ghost before = out@;
        assert(all[i as int] == choice_views(choices@)[i as int]);
        let mut key: String = " [".to_owned();
        key.push(choices[i].0);
        key.append("] ");
        let mut label: String = choices[i].1.to_owned();
        label.append("  ");
        assert(key@ =~= choice_text(all[i as int]).0);
        assert(label@ =~= choice_text(all[i as int]).1);
        let pair = (key, label);
        out.push(pair);
        assert(pair_views(out@) =~= pair_views(before).push(
            choice_text(all[i as int]),
        ));
        assert(choice_texts(menu).take(i + 1) =~= choice_texts(menu).take(i as int).push(
            choice_text(all[i as int]),
        ));
        i = i + 1;
    }
    assert(choice_texts(menu).take(i as int) =~= choice_texts(menu));
    out
}

} // verus!
