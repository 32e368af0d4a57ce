//! The dialog that collects a new task: which field has the focus, what is
//! typed into it, and when the task is submitted.

use vstd::prelude::*;
use crate::db::Task;
use crate::keys::Key;
use crate::search::matching;
use crate::text::{chars_of, contains_chars, pop_char, push_char};

verus! {

/// The fields of the dialog, in focus order.
#[derive(Clone, Copy, Debug, PartialEq, Eq, Structural)]
pub enum FocusedField {
    Title,
    Description,
    Category,
    ParentTask,
    DueDate,
    Time,
    Priority,
    Status,
}

/// The field after `f` (Tab), wrapping from the last to the first.
pub open spec fn next_field(f: FocusedField) -> FocusedField {
    match f {
        FocusedField::Title => FocusedField::Description,
        FocusedField::Description => FocusedField::Category,
        FocusedField::Category => FocusedField::ParentTask,
        FocusedField::ParentTask => FocusedField::DueDate,
        FocusedField::DueDate => FocusedField::Time,
        FocusedField::Time => FocusedField::Priority,
        FocusedField::Priority => FocusedField::Status,
        FocusedField::Status => FocusedField::Title,
    }
}

/// The field before `f` (Shift-Tab), wrapping from the first to the last.
pub open spec fn previous_field(f: FocusedField) -> FocusedField {
    match f {
        FocusedField::Title => FocusedField::Status,
        FocusedField::Description => FocusedField::Title,
        FocusedField::Category => FocusedField::Description,
        FocusedField::ParentTask => FocusedField::Category,
        FocusedField::DueDate => FocusedField::ParentTask,
        FocusedField::Time => FocusedField::DueDate,
        FocusedField::Priority => FocusedField::Time,
        FocusedField::Status => FocusedField::Priority,
    }
}

/// The categories offered.
pub fn categories() -> (v: Vec<&'static str>)
    ensures
        v@.len() == 5,
        v@[0]@ == "Personal"@,
        v@[1]@ == "Work"@,
        v@[2]@ == "Development"@,
        v@[3]@ == "Home"@,
        v@[4]@ == "Career Related"@,
{
    vec!["Personal", "Work", "Development", "Home", "Career Related"]
}

/// The priorities offered.
pub fn priorities() -> (v: Vec<&'static str>)
    ensures
        v@.len() == 3,
        v@[0]@ == "High"@,
        v@[1]@ == "Medium"@,
        v@[2]@ == "Low"@,
{
    vec!["High", "Medium", "Low"]
}

/// The statuses offered.
pub fn statuses() -> (v: Vec<&'static str>)
    ensures
        v@.len() == 3,
        v@[0]@ == "To Do"@,
        v@[1]@ == "In Progress"@,
        v@[2]@ == "Completed"@,
{
    vec!["To Do", "In Progress", "Completed"]
}

/// The state of the dialog: the text fields and the focus. Category,
/// priority and status stay at the first choice offered, and no parent task
/// is chosen.
pub struct TaskDialog {
    pub title: String,
    pub description: String,
    pub due_date: String,
    pub time: String,
    pub focused_field: FocusedField,
}

pub struct DialogView {
    pub title: Seq<char>,
    pub description: Seq<char>,
    pub due_date: Seq<char>,
    pub time: Seq<char>,
    pub focused_field: FocusedField,
}

impl View for TaskDialog {
    type V = DialogView;

    open spec fn view(&self) -> DialogView {
        DialogView {
            title: self.title@,
            description: self.description@,
            due_date: self.due_date@,
            time: self.time@,
            focused_field: self.focused_field,
        }
    }
}

/// What the dialog loop does after a key.
pub enum Outcome {
    /// Keep reading keys.
    Continue,
    /// Store the task and close the dialog.
    Submit(Task),
    /// Close the dialog without storing anything.
    Cancel,
}

/// `s` with `c` appended, or with its last character removed (`None`).
pub open spec fn edited(s: Seq<char>, c: Option<char>) -> Seq<char> {
    match c {
        Some(ch) => s.push(ch),
        None => if s.len() > 0 { s.drop_last() } else { s },
    }
}

/// The dialog after an edit (typed character, or backspace for `None`): it
/// goes to the focused field when that is a text field (title, description,
/// due date, time).
pub open spec fn after_edit(d: DialogView, c: Option<char>) -> DialogView {
    match d.focused_field {
        FocusedField::Title => DialogView { title: edited(d.title, c), ..d },
        FocusedField::Description => DialogView { description: edited(d.description, c), ..d },
        FocusedField::DueDate => DialogView { due_date: edited(d.due_date, c), ..d },
        FocusedField::Time => DialogView { time: edited(d.time, c), ..d },
        _ => d,
    }
}

/// The dialog after a key that does not close it.
pub open spec fn after_key(d: DialogView, key: Key) -> DialogView {
    match key {
        Key::Tab => DialogView { focused_field: next_field(d.focused_field), ..d },
        Key::BackTab => DialogView { focused_field: previous_field(d.focused_field), ..d },
        Key::Char(c) => after_edit(d, Some(c)),
        Key::Backspace => after_edit(d, None),
        _ => d,
    }
}

/// The task that the dialog submits: its text fields, the first category,
/// priority and status offered, no parent, due date and time as typed.
pub open spec fn submitted(d: DialogView, t: Task) -> bool {
    &&& t.id == 0
    &&& t.title@ == d.title
    &&& t.description@ == d.description
    &&& t.category@ == "Personal"@
    &&& t.parent_task_id is None
    &&& t.due_date matches Some(s) && s@ == d.due_date
    &&& t.time matches Some(s) && s@ == d.time
    &&& t.priority@ == "High"@
    &&& t.status@ == "To Do"@
}

fn edit(s: &mut String, c: Option<char>)
    ensures
        final(s)@ == edited(old(s)@, c),
{
    match c {
        Some(ch) => push_char(s, ch),
        None => {
            pop_char(s);
        },
    }
}

impl TaskDialog {
    /// An empty dialog with the focus on the title.
    pub fn new() -> (d: TaskDialog)
        ensures
            d@ == (DialogView {
                title: seq![],
                description: seq![],
                due_date: seq![],
                time: seq![],
                focused_field: FocusedField::Title,
            }),
    {
        TaskDialog {
            title: String::new(),
            description: String::new(),
            due_date: String::new(),
            time: String::new(),
            focused_field: FocusedField::Title,
        }
    }

    fn apply_edit(&mut self, c: Option<char>)
        ensures
            final(self)@ == after_edit(old(self)@, c),
    {
        match self.focused_field {
            FocusedField::Title => edit(&mut self.title, c),
            FocusedField::Description => edit(&mut self.description, c),
            FocusedField::DueDate => edit(&mut self.due_date, c),
            FocusedField::Time => edit(&mut self.time, c),
            _ => {},
        }
    }

    /// Handles a key: Enter submits the task (`submitted`), Esc cancels,
    /// Tab and Shift-Tab move the focus, characters and backspace edit the
    /// focused text field (`after_key`).
    pub fn handle_key(&mut self, key: Key) -> (out: Outcome)
        ensures
            key == Key::Enter ==> final(self)@ == old(self)@ && (out matches Outcome::Submit(t) && submitted(
                old(self)@,
                t,
            )),
            key == Key::Esc ==> final(self)@ == old(self)@ && out is Cancel,
            key != Key::Enter && key != Key::Esc ==> final(self)@ == after_key(old(self)@, key) && out is Continue,
    {
        match key {
            Key::Enter => {
                let task = Task {
                    id: 0,
                    title: self.title.clone(),
                    description: self.description.clone(),
                    category: String::from_str("Personal"),
                    parent_task_id: None,
                    due_date: Some(self.due_date.clone()),
                    time: Some(self.time.clone()),
                    priority: String::from_str("High"),
                    status: String::from_str("To Do"),
                };
                Outcome::Submit(task)
            },
            Key::Esc => Outcome::Cancel,
            Key::Tab => {
                self.focused_field = match self.focused_field {
                    FocusedField::Title => FocusedField::Description,
                    FocusedField::Description => FocusedField::Category,
                    FocusedField::Category => FocusedField::ParentTask,
                    FocusedField::ParentTask => FocusedField::DueDate,
                    FocusedField::DueDate => FocusedField::Time,
                    FocusedField::Time => FocusedField::Priority,
                    FocusedField::Priority => FocusedField::Status,
                    FocusedField::Status => FocusedField::Title,
                };
                Outcome::Continue
            },
            Key::BackTab => {
                self.focused_field = match self.focused_field {
                    FocusedField::Title => FocusedField::Status,
                    FocusedField::Description => FocusedField::Title,
                    FocusedField::Category => FocusedField::Description,
                    FocusedField::ParentTask => FocusedField::Category,
                    FocusedField::DueDate => FocusedField::ParentTask,
                    FocusedField::Time => FocusedField::DueDate,
                    FocusedField::Priority => FocusedField::Time,
                    FocusedField::Status => FocusedField::Priority,
                };
                Outcome::Continue
            },
            Key::Char(c) => {
                self.apply_edit(Some(c));
                Outcome::Continue
            },
            Key::Backspace => {
                self.apply_edit(None);
                Outcome::Continue
            },
            _ => Outcome::Continue,
        }
    }
}

/// The positions of the tasks offered as parent: those whose title contains
/// the search query, in order.
pub fn parent_candidates(tasks: &Vec<Task>, query: &str) -> (r: Vec<usize>)
    ensures
        r@.map_values(|i: usize| i as int) == matching(tasks@.map_values(|t: Task| t.title@), query@),
{
    let ghost titles = tasks@.map_values(|t: Task| t.title@);
    let q = chars_of(query);
    let mut r: Vec<usize> = Vec::new();
    let mut i: usize = 0;
    while i < tasks.len()
        invariant
            i <= tasks@.len(),
            q@ == query@,
            titles == tasks@.map_values(|t: Task| t.title@),
            r@.map_values(|k: usize| k as int) == matching(titles.take(i as int), query@),
        decreases tasks@.len() - i,
    {
        proof {
            assert(titles.take(i + 1).drop_last() =~= titles.take(i as int));
            assert(titles.take(i + 1).last() == tasks@[i as int].title@);
        }
        let t = chars_of(tasks[i].title.as_str());
        if contains_chars(&t, &q) {
            let ghost before = r@;
            r.push(i);
            proof {
                assert(r@.map_values(|k: usize| k as int) =~= before.map_values(|k: usize| k as int).push(i as int));
            }
        } else {
            proof {
                assert(matching(titles.take(i + 1), query@) =~= matching(titles.take(i as int), query@));
            }
        }
        i = i + 1;
    }
    proof {
        assert(titles.take(tasks@.len() as int) =~= titles);
    }
    r
}

/// Tab then Shift-Tab (or the reverse) brings the focus back.
pub proof fn law_tab_back_tab(f: FocusedField)
    ensures
        previous_field(next_field(f)) == f,
        next_field(previous_field(f)) == f,
{
}

/// Eight presses of Tab go once round all the fields.
pub proof fn law_tab_cycle(f: FocusedField)
    ensures
        next_field(next_field(next_field(next_field(next_field(next_field(next_field(next_field(f)))))))) == f,
{
}

/// Typing a character and erasing it leaves the dialog as it was.
pub proof fn law_type_then_erase(d: DialogView, c: char)
    ensures
        after_key(after_key(d, Key::Char(c)), Key::Backspace) == d,
{
    assert(d.title.push(c).drop_last() =~= d.title);
    assert(d.description.push(c).drop_last() =~= d.description);
    assert(d.due_date.push(c).drop_last() =~= d.due_date);
    assert(d.time.push(c).drop_last() =~= d.time);
}

/// What the main screen does after a key.
#[derive(Clone, Copy, Debug, PartialEq, Eq, Structural)]
pub enum MainAction {
    /// Open the task dialog.
    OpenDialog,
    /// Leave the program.
    Quit,
    Nothing,
}

/// The main screen's keys: `a` with Control (and no other modifier) opens
/// the task dialog, Esc quits, every other key does nothing.
pub fn main_key(key: Key, control_only: bool) -> (a: MainAction)
    ensures
        a == (if key == Key::Char('a') && control_only {
            MainAction::OpenDialog
        } else if key == Key::Esc {
            MainAction::Quit
        } else {
            MainAction::Nothing
        }),
{
    match key {
        Key::Char('a') if control_only => MainAction::OpenDialog,
        Key::Esc => MainAction::Quit,
        _ => MainAction::Nothing,
    }
}

/// A typed character goes to the end of the focused text field (title,
/// description, due date or time) and nowhere else; the focus stays.
pub proof fn law_typing_fills_focused_field(d: DialogView, c: char)
    ensures
        ({
            let r = after_key(d, Key::Char(c));
            &&& r.focused_field == d.focused_field
            &&& r.title == (if d.focused_field == FocusedField::Title { d.title.push(c) } else { d.title })
            &&& r.description == (if d.focused_field == FocusedField::Description { d.description.push(c) } else { d.description })
            &&& r.due_date == (if d.focused_field == FocusedField::DueDate { d.due_date.push(c) } else { d.due_date })
            &&& r.time == (if d.focused_field == FocusedField::Time { d.time.push(c) } else { d.time })
        }),
{
}

/// Backspace removes the last character of the focused text field, if it has
/// one, and touches nothing else.
pub proof fn law_backspace_erases_focused_field(d: DialogView)
    ensures
        ({
            let r = after_key(d, Key::Backspace);
            &&& r.focused_field == d.focused_field
            &&& r.title == (if d.focused_field == FocusedField::Title && d.title.len() > 0 { d.title.take(d.title.len() - 1) } else { d.title })
            &&& r.description == (if d.focused_field == FocusedField::Description && d.description.len() > 0 { d.description.take(d.description.len() - 1) } else { d.description })
            &&& r.due_date == (if d.focused_field == FocusedField::DueDate && d.due_date.len() > 0 { d.due_date.take(d.due_date.len() - 1) } else { d.due_date })
            &&& r.time == (if d.focused_field == FocusedField::Time && d.time.len() > 0 { d.time.take(d.time.len() - 1) } else { d.time })
        }),
{
}

} // verus!
