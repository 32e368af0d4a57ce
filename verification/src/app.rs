//! The task manager: tasks and their subtasks, the search that filters them,
//! the orders they can be sorted in, and what each key does in each input
//! mode.

use vstd::prelude::*;
use fuzzy_matcher::skim::SkimMatcherV2;
use fuzzy_matcher::FuzzyMatcher;
use crate::keys::Key;
use crate::text::{ascii_lower_char, chars_of, joined, lex_less, pop_char, push_char, seq_lt, lemma_seq_lt_irreflexive, lemma_seq_lt_total, lemma_seq_lt_transitive};

verus! {

/// How urgent a task is.
#[derive(Clone, Copy, Debug, PartialEq, Eq, Structural)]
pub enum Priority {
    Low,
    Medium,
    High,
}

/// A step of a task.
pub struct SubTask {
    pub id: i64,
    pub title: String,
    pub status: bool,
}

/// A calendar date (year, month from 1, day from 1), ordered by time.
#[derive(Clone, Copy, Debug, PartialEq, Eq, Structural)]
pub struct Date {
    pub year: i32,
    pub month: u32,
    pub day: u32,
}

/// A task.
pub struct Task {
    pub id: i64,
    pub title: String,
    pub description: String,
    pub due_date: Option<Date>,
    pub status: bool,
    pub priority: Priority,
    pub subtasks: Vec<SubTask>,
}

/// The order in which the task list is shown.
#[derive(Clone, Copy, Debug, PartialEq, Eq, Structural)]
pub enum SortMode {
    /// The order in which the tasks were read.
    Default,
    /// By title, alphabetically.
    Title,
    /// By due date, tasks without one first.
    DueDate,
    /// By priority, highest first.
    Priority,
    /// By status, completed tasks first.
    Status,
}

pub struct SubTaskView {
    pub id: i64,
    pub title: Seq<char>,
    pub status: bool,
}

pub struct TaskView {
    pub id: i64,
    pub title: Seq<char>,
    pub description: Seq<char>,
    pub due_date: Option<Date>,
    pub status: bool,
    pub priority: Priority,
    pub subtasks: Seq<SubTaskView>,
}

impl View for SubTask {
    type V = SubTaskView;

    open spec fn view(&self) -> SubTaskView {
        SubTaskView { id: self.id, title: self.title@, status: self.status }
    }
}

impl View for Task {
    type V = TaskView;

    open spec fn view(&self) -> TaskView {
        TaskView {
            id: self.id,
            title: self.title@,
            description: self.description@,
            due_date: self.due_date,
            status: self.status,
            priority: self.priority,
            subtasks: self.subtasks@.map_values(|s: SubTask| s@),
        }
    }
}

/// The views of a sequence of tasks.
pub open spec fn task_views(tasks: Seq<Task>) -> Seq<TaskView> {
    tasks.map_values(|t: Task| t@)
}

impl SubTask {
    /// A copy of this subtask.
    pub fn copy(&self) -> (r: SubTask)
        ensures
            r@ == self@,
    {
        SubTask { id: self.id, title: self.title.clone(), status: self.status }
    }
}

impl Task {
    /// A copy of the task.
    pub fn copy(&self) -> (r: Task)
        ensures
            r@ == self@,
    {
        let mut subtasks: Vec<SubTask> = Vec::new();
        let mut i: usize = 0;
        while i < self.subtasks.len()
            invariant
                i <= self.subtasks@.len(),
                subtasks@.len() == i,
                forall|j: int| 0 <= j < i ==> subtasks@[j]@ == self.subtasks@[j]@,
            decreases self.subtasks@.len() - i,
        {
            subtasks.push(self.subtasks[i].copy());
            i = i + 1;
        }
        let r = Task {
            id: self.id,
            title: self.title.clone(),
            description: self.description.clone(),
            due_date: self.due_date,
            status: self.status,
            priority: self.priority,
            subtasks,
        };
        proof {
            assert(r.subtasks@.map_values(|s: SubTask| s@) =~= self.subtasks@.map_values(|s: SubTask| s@));
        }
        r
    }
}

/// Copies of a sequence of tasks.
pub fn copy_tasks(tasks: &Vec<Task>) -> (r: Vec<Task>)
    ensures
        task_views(r@) == task_views(tasks@),
{
    let mut r: Vec<Task> = Vec::new();
    let mut i: usize = 0;
    while i < tasks.len()
        invariant
            i <= tasks@.len(),
            r@.len() == i,
            forall|j: int| 0 <= j < i ==> r@[j]@ == tasks@[j]@,
        decreases tasks@.len() - i,
    {
        r.push(tasks[i].copy());
        i = i + 1;
    }
    proof {
        assert(task_views(r@) =~= task_views(tasks@));
    }
    r
}

// ----------------------------------------------------------------------------
// Orders

/// `a` is an earlier date than `b`.
pub open spec fn date_lt(a: Date, b: Date) -> bool {
    a.year < b.year || (a.year == b.year && (a.month < b.month || (a.month == b.month && a.day < b.day)))
}

/// Due dates in order: no date before any date, dates by time.
pub open spec fn due_lt(a: Option<Date>, b: Option<Date>) -> bool {
    match (a, b) {
        (None, Some(_)) => true,
        (Some(x), Some(y)) => date_lt(x, y),
        _ => false,
    }
}

/// The rank of a priority: low, medium, high.
pub open spec fn rank(p: Priority) -> int {
    match p {
        Priority::Low => 0,
        Priority::Medium => 1,
        Priority::High => 2,
    }
}

/// Task `a` is shown strictly before task `b` in the given order.
pub open spec fn goes_before(mode: SortMode, a: TaskView, b: TaskView) -> bool {
    match mode {
        SortMode::Default => false,
        SortMode::Title => seq_lt(a.title, b.title),
        SortMode::DueDate => due_lt(a.due_date, b.due_date),
        SortMode::Priority => rank(b.priority) < rank(a.priority),
        SortMode::Status => a.status && !b.status,
    }
}

/// `p` witnesses that `output` is `input` sorted stably by `mode`: `p` is a
/// permutation of the positions of `input`, `output[k]` is `input[p[k]]`,
/// no task is shown before one that goes before it, and tasks that are tied
/// keep their relative order.
pub open spec fn sort_witness(mode: SortMode, input: Seq<TaskView>, output: Seq<TaskView>, p: Seq<int>) -> bool {
    &&& p.len() == input.len()
    &&& output.len() == input.len()
    &&& forall|k: int| 0 <= k < p.len() ==> 0 <= #[trigger] p[k] < input.len() && output[k] == input[p[k]]
    &&& forall|k1: int, k2: int| 0 <= k1 < k2 < p.len() ==> p[k1] != p[k2]
    &&& forall|k1: int, k2: int| 0 <= k1 < k2 < p.len() ==> !goes_before(mode, output[k2], output[k1])
    &&& forall|k1: int, k2: int|
        0 <= k1 < k2 < p.len() && !goes_before(mode, output[k1], output[k2]) ==> p[k1] < p[k2]
}

/// `output` is `input` sorted stably by `mode` (as `sort_by` sorts).
pub open spec fn stably_sorted(mode: SortMode, input: Seq<TaskView>, output: Seq<TaskView>) -> bool {
    exists|p: Seq<int>| sort_witness(mode, input, output, p)
}

/// `goes_before` is a strict weak order: irreflexive, transitive, and
/// whatever goes before `c` goes before or after anything else.
pub proof fn lemma_goes_before_order(mode: SortMode, a: TaskView, b: TaskView, c: TaskView)
    ensures
        !goes_before(mode, a, a),
        goes_before(mode, a, b) && goes_before(mode, b, c) ==> goes_before(mode, a, c),
        goes_before(mode, a, c) ==> goes_before(mode, a, b) || goes_before(mode, b, c),
{
    if mode is Title {
        lemma_seq_lt_irreflexive(a.title);
        if seq_lt(a.title, b.title) && seq_lt(b.title, c.title) {
            lemma_seq_lt_transitive(a.title, b.title, c.title);
        }
        if seq_lt(a.title, c.title) {
            lemma_seq_lt_total(a.title, b.title);
            if seq_lt(b.title, a.title) {
                lemma_seq_lt_transitive(b.title, a.title, c.title);
            }
        }
    }
}

fn date_before(a: Date, b: Date) -> (r: bool)
    ensures
        r == date_lt(a, b),
{
    a.year < b.year || (a.year == b.year && (a.month < b.month || (a.month == b.month && a.day < b.day)))
}

fn rank_of(p: Priority) -> (r: u8)
    ensures
        r as int == rank(p),
{
    match p {
        Priority::Low => 0,
        Priority::Medium => 1,
        Priority::High => 2,
    }
}

/// Whether task `a` is shown strictly before task `b` in the given order.
pub fn task_goes_before(mode: SortMode, a: &Task, b: &Task) -> (r: bool)
    ensures
        r == goes_before(mode, a@, b@),
{
    match mode {
        SortMode::Default => false,
        SortMode::Title => {
            let x = chars_of(a.title.as_str());
            let y = chars_of(b.title.as_str());
            lex_less(&x, &y)
        },
        SortMode::DueDate => match (a.due_date, b.due_date) {
            (None, Some(_)) => true,
            (Some(x), Some(y)) => date_before(x, y),
            _ => false,
        },
        SortMode::Priority => rank_of(b.priority) < rank_of(a.priority),
        SortMode::Status => a.status && !b.status,
    }
}

/// `tasks` sorted stably by `mode`.
pub fn sort_tasks_by(mode: SortMode, tasks: &Vec<Task>) -> (r: Vec<Task>)
    ensures
        stably_sorted(mode, task_views(tasks@), task_views(r@)),
{
    let ghost input = task_views(tasks@);
    let mut r: Vec<Task> = Vec::new();
    let ghost mut p: Seq<int> = seq![];
    let mut i: usize = 0;
    while i < tasks.len()
        invariant
            i <= tasks@.len(),
            input == task_views(tasks@),
            sort_witness(mode, input.take(i as int), task_views(r@), p),
        decreases tasks@.len() - i,
    {
        let x = tasks[i].copy();
        let mut j: usize = r.len();
        loop
            invariant
                j <= r@.len(),
                forall|m: int| j <= m < r@.len() ==> goes_before(mode, x@, r@[m]@),
            ensures
                j <= r@.len(),
                forall|m: int| j <= m < r@.len() ==> goes_before(mode, x@, r@[m]@),
                j > 0 ==> !goes_before(mode, x@, r@[j - 1]@),
            decreases j,
        {
            if j == 0 {
                break;
            }
            if !task_goes_before(mode, &x, &r[j - 1]) {
                break;
            }
            j = j - 1;
        }
        let ghost old_out = task_views(r@);
        let ghost old_p = p;
        proof {
            assert forall|a: int| 0 <= a < j implies !goes_before(mode, x@, #[trigger] old_out[a]) by {
                let last = old_out[j - 1];
                assert(last == r@[j - 1]@);
                assert(!goes_before(mode, x@, last));
                if a < j - 1 {
                    assert(sort_witness(mode, input.take(i as int), old_out, old_p));
                    assert(!goes_before(mode, old_out[j - 1], old_out[a]));
                }
                lemma_goes_before_order(mode, x@, old_out[a], last);
                lemma_goes_before_order(mode, x@, last, old_out[a]);
            }
            assert forall|m: int| j <= m < old_out.len() implies !goes_before(mode, #[trigger] old_out[m], x@) by {
                assert(goes_before(mode, x@, r@[m]@));
                lemma_goes_before_order(mode, x@, old_out[m], x@);
            }
        }
        r.insert(j, x);
        proof {
            p = old_p.insert(j as int, i as int);
            let out = task_views(r@);
            assert(out =~= old_out.insert(j as int, x@));
            assert(input.take(i + 1) =~= input.take(i as int).push(input[i as int]));
            assert(x@ == input[i as int]);
            assert forall|k: int| 0 <= k < p.len() implies 0 <= #[trigger] p[k] < input.take(i + 1).len() && out[k] == input.take(i + 1)[p[k]] by {
                if k < j {
                    assert(p[k] == old_p[k]);
                } else if k > j {
                    assert(p[k] == old_p[k - 1]);
                }
            }
            assert forall|k1: int, k2: int| 0 <= k1 < k2 < p.len() implies p[k1] != p[k2] by {
                if k1 != j && k2 != j {
                    let a1 = if k1 < j { k1 } else { k1 - 1 };
                    let a2 = if k2 < j { k2 } else { k2 - 1 };
                    assert(p[k1] == old_p[a1] && p[k2] == old_p[a2]);
                } else if k1 == j {
                    assert(p[k2] == old_p[k2 - 1]);
                } else {
                    assert(p[k1] == old_p[k1]);
                }
            }
            assert forall|k1: int, k2: int| 0 <= k1 < k2 < p.len() implies !goes_before(mode, out[k2], out[k1]) by {
                if k1 != j && k2 != j {
                    let a1 = if k1 < j { k1 } else { k1 - 1 };
                    let a2 = if k2 < j { k2 } else { k2 - 1 };
                    assert(out[k1] == old_out[a1] && out[k2] == old_out[a2]);
                } else if k1 == j {
                    assert(out[k2] == old_out[k2 - 1]);
                } else {
                    assert(out[k1] == old_out[k1]);
                }
            }
            assert forall|k1: int, k2: int|
                0 <= k1 < k2 < p.len() && !goes_before(mode, out[k1], out[k2]) implies p[k1] < p[k2] by {
                if k1 != j && k2 != j {
                    let a1 = if k1 < j { k1 } else { k1 - 1 };
                    let a2 = if k2 < j { k2 } else { k2 - 1 };
                    assert(out[k1] == old_out[a1] && out[k2] == old_out[a2]);
                    assert(p[k1] == old_p[a1] && p[k2] == old_p[a2]);
                } else if k1 == j {
                    assert(out[k2] == old_out[k2 - 1]);
                    assert(goes_before(mode, x@, r@[k2]@));
                } else {
                    assert(p[k1] == old_p[k1]);
                }
            }
        }
        i = i + 1;
    }
    proof {
        assert(input.take(tasks@.len() as int) =~= input);
    }
    r
}

// ----------------------------------------------------------------------------
// Search

/// The score that `SkimMatcherV2::default().fuzzy_match(choice, pattern)`
/// gives when it matches.
pub uninterp spec fn skim_score(choice: Seq<char>, pattern: Seq<char>) -> Option<i64>;

/// The pattern holds an ASCII upper-case letter (the skim matcher then
/// compares characters exactly).
pub open spec fn has_ascii_upper(p: Seq<char>) -> bool {
    exists|i: int| 0 <= i < p.len() && 'A' <= p[i] && p[i] <= 'Z'
}

/// Two characters are equal, exactly or ignoring ASCII case.
pub open spec fn chars_equal(a: char, b: char, case_sensitive: bool) -> bool {
    if case_sensitive {
        a == b
    } else {
        ascii_lower_char(a) == ascii_lower_char(b)
    }
}

/// `pattern` occurs in `choice` as a subsequence: at increasing positions,
/// each character equal to the pattern's.
pub open spec fn embeds(choice: Seq<char>, pattern: Seq<char>, case_sensitive: bool) -> bool {
    exists|pos: Seq<int>|
        {
            &&& pos.len() == pattern.len()
            &&& forall|k: int| 0 <= k < pos.len() ==> 0 <= #[trigger] pos[k] < choice.len()
            &&& forall|k1: int, k2: int| 0 <= k1 < k2 < pos.len() ==> pos[k1] < pos[k2]
            &&& forall|k: int| 0 <= k < pos.len() ==> chars_equal(choice[#[trigger] pos[k]], pattern[k], case_sensitive)
        }
}

/// The skim matcher matches `pattern` in `choice`: the pattern is empty, or
/// it is a subsequence of the choice, compared exactly when the pattern holds
/// an ASCII upper-case letter and ignoring ASCII case otherwise.
pub open spec fn fuzzy_matches(choice: Seq<char>, pattern: Seq<char>) -> bool {
    pattern.len() == 0 || embeds(choice, pattern, has_ascii_upper(pattern))
}

/// `fuzzy_matcher`'s skim matcher (default configuration): how well
/// `pattern` fuzzily matches `choice`. Claimed: there is a score exactly when
/// `fuzzy_matches` holds (`SkimMatcherV2::fuzzy` answers `Some` for an empty
/// pattern, else exactly when `cheap_matches`, a greedy subsequence scan with
/// smart case, succeeds; the default has no element limit); the score
/// itself is named, a function of the two strings alone.
#[verifier::external_body]
pub(crate) fn fuzzy_match(choice: &str, pattern: &str) -> (r: Option<i64>)
    ensures
        r == skim_score(choice@, pattern@),
        r is Some <==> fuzzy_matches(choice@, pattern@),
{
    SkimMatcherV2::default().fuzzy_match(choice, pattern)
}

/// The tasks that the search shows: all of them when the search input is
/// empty, else those whose title the input fuzzily matches, in order.
pub open spec fn search_filter(tasks: Seq<TaskView>, input: Seq<char>) -> Seq<TaskView> {
    if input.len() == 0 {
        tasks
    } else {
        tasks.filter(|t: TaskView| fuzzy_matches(t.title, input))
    }
}

/// The tasks whose score is `Some`, in order (`scores[i]` is the score of
/// `tasks[i]`).
pub open spec fn scored(tasks: Seq<TaskView>, scores: Seq<Option<i64>>) -> Seq<TaskView>
    decreases tasks.len(),
{
    if tasks.len() == 0 {
        seq![]
    } else {
        scored(tasks.drop_last(), scores.drop_last()) + if scores[tasks.len() - 1] is Some {
            seq![tasks.last()]
        } else {
            seq![]
        }
    }
}

/// Keeping the tasks with a score is filtering by the predicate that the
/// scores compute.
pub proof fn lemma_scored_is_filter(tasks: Seq<TaskView>, scores: Seq<Option<i64>>, input: Seq<char>)
    requires
        scores.len() == tasks.len(),
        forall|i: int| 0 <= i < tasks.len() ==> (scores[i] is Some <==> fuzzy_matches(tasks[i].title, input)),
    ensures
        scored(tasks, scores) == tasks.filter(|t: TaskView| fuzzy_matches(t.title, input)),
    decreases tasks.len(),
{
    reveal(Seq::filter);
    if tasks.len() > 0 {
        let init = tasks.drop_last();
        let init_scores = scores.drop_last();
        assert forall|i: int| 0 <= i < init.len() implies (init_scores[i] is Some <==> fuzzy_matches(init[i].title, input)) by {
            assert(init[i] == tasks[i]);
        }
        lemma_scored_is_filter(init, init_scores, input);
    }
}

/// The tasks whose score is `Some` (`scored`), copied.
pub fn select_scored(tasks: &Vec<Task>, scores: &Vec<Option<i64>>) -> (r: Vec<Task>)
    requires
        scores@.len() == tasks@.len(),
    ensures
        task_views(r@) == scored(task_views(tasks@), scores@),
{
    let mut r: Vec<Task> = Vec::new();
    let mut i: usize = 0;
    while i < tasks.len()
        invariant
            i <= tasks@.len(),
            scores@.len() == tasks@.len(),
            task_views(r@) == scored(task_views(tasks@).take(i as int), scores@.take(i as int)),
        decreases tasks@.len() - i,
    {
        proof {
            assert(task_views(tasks@).take(i + 1).drop_last() =~= task_views(tasks@).take(i as int));
            assert(scores@.take(i + 1).drop_last() =~= scores@.take(i as int));
            assert(task_views(tasks@).take(i + 1).last() == tasks@[i as int]@);
            assert(scores@.take(i + 1)[i as int] == scores@[i as int]);
        }
        if scores[i].is_some() {
            let t = tasks[i].copy();
            proof {
                assert(task_views(r@.push(t)) =~= task_views(r@).push(t@));
            }
            r.push(t);
        } else {
            proof {
                assert(scored(task_views(tasks@).take(i + 1), scores@.take(i + 1)) =~= scored(task_views(tasks@).take(i as int), scores@.take(i as int)));
            }
        }
        i = i + 1;
    }
    proof {
        assert(task_views(tasks@).take(tasks@.len() as int) =~= task_views(tasks@));
        assert(scores@.take(tasks@.len() as int) =~= scores@);
    }
    r
}

/// The score of each task title against the search input.
fn title_scores(tasks: &Vec<Task>, input: &String) -> (r: Vec<Option<i64>>)
    ensures
        r@.len() == tasks@.len(),
        forall|i: int| 0 <= i < tasks@.len() ==> r@[i] == skim_score(tasks@[i].title@, input@),
        forall|i: int| 0 <= i < tasks@.len() ==> (r@[i] is Some <==> fuzzy_matches(tasks@[i].title@, input@)),
{
    let mut r: Vec<Option<i64>> = Vec::new();
    let mut i: usize = 0;
    while i < tasks.len()
        invariant
            i <= tasks@.len(),
            r@.len() == i,
            forall|k: int| 0 <= k < i ==> r@[k] == skim_score(tasks@[k].title@, input@),
            forall|k: int| 0 <= k < i ==> (r@[k] is Some <==> fuzzy_matches(tasks@[k].title@, input@)),
        decreases tasks@.len() - i,
    {
        r.push(fuzzy_match(tasks[i].title.as_str(), input.as_str()));
        i = i + 1;
    }
    r
}

/// The tasks that the search input shows (`search_filter`), copied.
pub fn filter_by_input(tasks: &Vec<Task>, input: &String) -> (r: Vec<Task>)
    ensures
        task_views(r@) == search_filter(task_views(tasks@), input@),
{
    if input.as_str().is_empty() {
        return copy_tasks(tasks);
    }
    let scores = title_scores(tasks, input);
    let r = select_scored(tasks, &scores);
    proof {
        lemma_scored_is_filter(task_views(tasks@), scores@, input@);
    }
    r
}

// ----------------------------------------------------------------------------
// The application

/// What the keys are being read for.
#[derive(Clone, Copy, Debug, PartialEq, Eq, Structural)]
pub enum InputMode {
    Normal,
    Editing,
    AddingSubtask,
    EditingSubtask,
    SettingDueDate,
    SettingPriority,
}

/// What a confirmation dialog asks to confirm.
#[derive(Clone, Copy, Debug, PartialEq, Eq, Structural)]
pub enum ConfirmationAction {
    Quit,
    DeleteTask,
    DeleteSubtask,
    ArchiveTask,
}

/// A question to be answered with y or n.
pub struct ConfirmationDialog {
    pub message: String,
    pub action: ConfirmationAction,
}

/// The state of the task manager.
pub struct App {
    /// Every task, as last read from storage.
    pub tasks: Vec<Task>,
    /// The tasks that the search shows, in the current order.
    pub filtered_tasks: Vec<Task>,
    /// The position of the selected task in `filtered_tasks`.
    pub selected_task: Option<usize>,
    pub selected_subtask: Option<usize>,
    pub input_mode: InputMode,
    /// The text being typed (search and edit input).
    pub input: String,
    pub confirmation_dialog: Option<ConfirmationDialog>,
    pub sort_mode: SortMode,
    pub error_message: Option<String>,
    pub show_confirm_quit: bool,
    pub show_help: bool,
}

/// The abstract state of the task manager.
pub struct AppView {
    pub tasks: Seq<TaskView>,
    pub filtered: Seq<TaskView>,
    pub selected_task: Option<usize>,
    pub selected_subtask: Option<usize>,
    pub input_mode: InputMode,
    pub input: Seq<char>,
    pub confirmation: Option<(Seq<char>, ConfirmationAction)>,
    pub sort_mode: SortMode,
    pub error_message: Option<Seq<char>>,
    pub show_confirm_quit: bool,
    pub show_help: bool,
}

impl View for App {
    type V = AppView;

    open spec fn view(&self) -> AppView {
        AppView {
            tasks: task_views(self.tasks@),
            filtered: task_views(self.filtered_tasks@),
            selected_task: self.selected_task,
            selected_subtask: self.selected_subtask,
            input_mode: self.input_mode,
            input: self.input@,
            confirmation: match self.confirmation_dialog {
                Some(d) => Some((d.message@, d.action)),
                None => None,
            },
            sort_mode: self.sort_mode,
            error_message: match self.error_message {
                Some(m) => Some(m@),
                None => None,
            },
            show_confirm_quit: self.show_confirm_quit,
            show_help: self.show_help,
        }
    }
}

/// What storage is asked to do after a key; once it is done, the caller
/// reads the tasks again and hands them to `complete_edit`.
pub enum Command {
    Nothing,
    /// Store the task (found by its id) with its new title.
    UpdateTask(Task),
    /// Add a new task.
    AddTask(Task),
    /// Add a subtask to the task with the given id.
    AddSubtask(i64, SubTask),
}

pub enum CommandView {
    Nothing,
    UpdateTask(TaskView),
    AddTask(TaskView),
    AddSubtask(i64, SubTaskView),
}

impl View for Command {
    type V = CommandView;

    open spec fn view(&self) -> CommandView {
        match self {
            Command::Nothing => CommandView::Nothing,
            Command::UpdateTask(t) => CommandView::UpdateTask(t@),
            Command::AddTask(t) => CommandView::AddTask(t@),
            Command::AddSubtask(id, s) => CommandView::AddSubtask(*id, s@),
        }
    }
}

/// The next sort order: default, title, due date, priority, status, and
/// back to default.
pub open spec fn next_sort_mode(m: SortMode) -> SortMode {
    match m {
        SortMode::Default => SortMode::Title,
        SortMode::Title => SortMode::DueDate,
        SortMode::DueDate => SortMode::Priority,
        SortMode::Priority => SortMode::Status,
        SortMode::Status => SortMode::Default,
    }
}

/// The question asked before a task is deleted.
pub open spec fn delete_question() -> Seq<char> {
    "Are you sure you want to delete this "@ + "task? (y/n)"@
}

/// The task created from the edit input: that title, no description, no due
/// date, not done, medium priority, no subtasks.
pub open spec fn new_task_view(title: Seq<char>) -> TaskView {
    TaskView {
        id: 0,
        title: title,
        description: seq![],
        due_date: None,
        status: false,
        priority: Priority::Medium,
        subtasks: seq![],
    }
}

impl AppView {
    /// The keys on which handling goes through without a fault: a selected
    /// task that is edited, renamed or given a subtask lies in the list, and
    /// moving down from a selection needs a list to move in.
    pub open spec fn key_ok(self, key: Key) -> bool {
        match self.input_mode {
            InputMode::Normal => match key {
                Key::Char('e') => self.selected_task matches Some(i) ==> i < self.filtered.len(),
                Key::Down => self.selected_task is Some ==> self.filtered.len() > 0,
                _ => true,
            },
            InputMode::Editing | InputMode::AddingSubtask => match key {
                Key::Enter => self.selected_task matches Some(i) ==> i < self.filtered.len(),
                _ => true,
            },
            _ => true,
        }
    }

    /// The state after a typing key (character, backspace, escape) in the
    /// editing modes.
    pub open spec fn after_typing(self, key: Key) -> AppView {
        match key {
            Key::Char(c) => AppView { input: self.input.push(c), ..self },
            Key::Backspace => AppView {
                input: if self.input.len() > 0 { self.input.drop_last() } else { self.input },
                ..self
            },
            Key::Esc => AppView { input: seq![], input_mode: InputMode::Normal, ..self },
            _ => self,
        }
    }

    /// The state after a key (for `s`, apart from the new order of the
    /// filtered list, which `sort_tasks` gives).
    pub open spec fn after_key(self, key: Key) -> AppView {
        match self.input_mode {
            InputMode::Normal => match key {
                Key::Char('q') => AppView { show_confirm_quit: true, ..self },
                Key::Char('e') => match self.selected_task {
                    Some(i) => AppView { input: self.filtered[i as int].title, input_mode: InputMode::Editing, ..self },
                    None => self,
                },
                Key::Char('a') => AppView {
                    input: seq![],
                    input_mode: InputMode::Editing,
                    selected_task: None,
                    ..self
                },
                Key::Char('s') => AppView { sort_mode: next_sort_mode(self.sort_mode), ..self },
                Key::Char('d') => match self.selected_task {
                    Some(_) => AppView { confirmation: Some((delete_question(), ConfirmationAction::DeleteTask)), ..self },
                    None => self,
                },
                Key::Down => match self.selected_task {
                    Some(i) => if i < self.filtered.len() - 1 {
                        AppView { selected_task: Some((i + 1) as usize), ..self }
                    } else {
                        self
                    },
                    None => if self.filtered.len() > 0 {
                        AppView { selected_task: Some(0), ..self }
                    } else {
                        self
                    },
                },
                Key::Up => match self.selected_task {
                    Some(i) => if i > 0 {
                        AppView { selected_task: Some((i - 1) as usize), ..self }
                    } else {
                        self
                    },
                    None => self,
                },
                _ => self,
            },
            InputMode::Editing => match key {
                Key::Enter => self,
                _ => self.after_typing(key),
            },
            InputMode::AddingSubtask => match key {
                Key::Enter => match self.selected_task {
                    Some(_) => self,
                    None => AppView { input: seq![], input_mode: InputMode::Normal, ..self },
                },
                _ => self.after_typing(key),
            },
            _ => self,
        }
    }

    /// What storage is asked to do after a key: Enter while editing stores
    /// the selected task renamed to the input (editing entered with `e`), or
    /// adds a task titled by the input when none is selected (editing entered
    /// with `a`, which clears the selection); Enter while adding a subtask
    /// adds one, titled by the input, to the selected task.
    pub open spec fn command_for(self, key: Key) -> CommandView {
        match (self.input_mode, key) {
            (InputMode::Editing, Key::Enter) => match self.selected_task {
                Some(i) => CommandView::UpdateTask(TaskView { title: self.input, ..self.filtered[i as int] }),
                None => CommandView::AddTask(new_task_view(self.input)),
            },
            (InputMode::AddingSubtask, Key::Enter) => match self.selected_task {
                Some(i) => CommandView::AddSubtask(
                    self.filtered[i as int].id,
                    SubTaskView { id: 0, title: self.input, status: false },
                ),
                None => CommandView::Nothing,
            },
            _ => CommandView::Nothing,
        }
    }
}

impl App {
    /// No tasks, nothing selected, normal mode, default order.
    pub fn new() -> (app: App)
        ensures
            app@ == (AppView {
                tasks: seq![],
                filtered: seq![],
                selected_task: None,
                selected_subtask: None,
                input_mode: InputMode::Normal,
                input: seq![],
                confirmation: None,
                sort_mode: SortMode::Default,
                error_message: None,
                show_confirm_quit: false,
                show_help: false,
            }),
    {
        let app = App {
            tasks: Vec::new(),
            filtered_tasks: Vec::new(),
            selected_task: None,
            selected_subtask: None,
            input_mode: InputMode::Normal,
            input: String::new(),
            confirmation_dialog: None,
            sort_mode: SortMode::Default,
            error_message: None,
            show_confirm_quit: false,
            show_help: false,
        };
        proof {
            assert(task_views(app.tasks@) =~= Seq::<TaskView>::empty());
            assert(task_views(app.filtered_tasks@) =~= Seq::<TaskView>::empty());
        }
        app
    }

    /// Sorts the shown tasks by the current order.
    pub fn sort_tasks(&mut self)
        ensures
            stably_sorted(old(self)@.sort_mode, old(self)@.filtered, final(self)@.filtered),
            final(self)@ == (AppView { filtered: final(self)@.filtered, ..old(self)@ }),
    {
        self.filtered_tasks = sort_tasks_by(self.sort_mode, &self.filtered_tasks);
    }

    /// Moves to the next order (`next_sort_mode`).
    pub fn cycle_sort_mode(&mut self)
        ensures
            final(self)@ == (AppView { sort_mode: next_sort_mode(old(self)@.sort_mode), ..old(self)@ }),
    {
        self.sort_mode = match self.sort_mode {
            SortMode::Default => SortMode::Title,
            SortMode::Title => SortMode::DueDate,
            SortMode::DueDate => SortMode::Priority,
            SortMode::Priority => SortMode::Status,
            SortMode::Status => SortMode::Default,
        };
    }

    /// Recomputes the shown tasks: those the search input matches, sorted by
    /// the current order.
    pub fn filter_tasks(&mut self)
        ensures
            stably_sorted(old(self)@.sort_mode, search_filter(old(self)@.tasks, old(self)@.input), final(self)@.filtered),
            final(self)@ == (AppView { filtered: final(self)@.filtered, ..old(self)@ }),
    {
        let shown = filter_by_input(&self.tasks, &self.input);
        self.filtered_tasks = sort_tasks_by(self.sort_mode, &shown);
    }

    /// Takes the tasks read from storage and recomputes the shown ones. With
    /// an empty search input every task is shown.
    pub fn refresh_tasks(&mut self, tasks: Vec<Task>)
        ensures
            final(self)@.tasks == task_views(tasks@),
            stably_sorted(old(self)@.sort_mode, search_filter(task_views(tasks@), old(self)@.input), final(self)@.filtered),
            old(self)@.input.len() == 0 ==> stably_sorted(old(self)@.sort_mode, task_views(tasks@), final(self)@.filtered),
            final(self)@ == (AppView { tasks: task_views(tasks@), filtered: final(self)@.filtered, ..old(self)@ }),
    {
        self.tasks = tasks;
        self.filter_tasks();
    }

    /// After storage has done what a command asked and the tasks were read
    /// again: takes them (`refresh_tasks`), clears the input and returns to
    /// normal mode.
    pub fn complete_edit(&mut self, tasks: Vec<Task>)
        ensures
            final(self)@.tasks == task_views(tasks@),
            stably_sorted(old(self)@.sort_mode, search_filter(task_views(tasks@), old(self)@.input), final(self)@.filtered),
            final(self)@ == (AppView {
                tasks: task_views(tasks@),
                filtered: final(self)@.filtered,
                input: seq![],
                input_mode: InputMode::Normal,
                ..old(self)@
            }),
    {
        self.refresh_tasks(tasks);
        self.input = String::new();
        self.input_mode = InputMode::Normal;
    }

    /// Shows an error message.
    pub fn show_error(&mut self, message: String)
        ensures
            final(self)@ == (AppView { error_message: Some(message@), ..old(self)@ }),
    {
        self.error_message = Some(message);
    }

    /// Whether the user asked to quit.
    pub fn should_quit(&self) -> (r: bool)
        ensures
            r == self@.show_confirm_quit,
    {
        self.show_confirm_quit
    }

    fn handle_typing(&mut self, key: Key)
        ensures
            final(self)@ == old(self)@.after_typing(key),
    {
        match key {
            Key::Char(c) => {
                push_char(&mut self.input, c);
            },
            Key::Backspace => {
                pop_char(&mut self.input);
            },
            Key::Esc => {
                self.input = String::new();
                self.input_mode = InputMode::Normal;
            },
            _ => {},
        }
    }

    fn handle_normal_mode(&mut self, key: Key)
        requires
            old(self)@.input_mode == InputMode::Normal,
            old(self)@.key_ok(key),
        ensures
            key != Key::Char('s') ==> final(self)@ == old(self)@.after_key(key),
            key == Key::Char('s') ==> final(self)@ == (AppView { filtered: final(self)@.filtered, ..old(self)@.after_key(key) })
                && stably_sorted(next_sort_mode(old(self)@.sort_mode), old(self)@.filtered, final(self)@.filtered),
    {
        match key {
            Key::Char('q') => {
                self.show_confirm_quit = true;
            },
            Key::Char('e') => {
                if let Some(selected) = self.selected_task {
                    self.input = self.filtered_tasks[selected].title.clone();
                    self.input_mode = InputMode::Editing;
                }
            },
            Key::Char('a') => {
                self.input = String::new();
                self.input_mode = InputMode::Editing;
                self.selected_task = None;
            },
            Key::Char('s') => {
                self.cycle_sort_mode();
                self.sort_tasks();
            },
            Key::Char('d') => {
                if self.selected_task.is_some() {
                    self.confirmation_dialog = Some(ConfirmationDialog {
                        message: joined("Are you sure you want to delete this ", "task? (y/n)"),
                        action: ConfirmationAction::DeleteTask,
                    });
                }
            },
            Key::Down => {
                if let Some(selected) = self.selected_task {
                    if selected < self.filtered_tasks.len() - 1 {
                        self.selected_task = Some(selected + 1);
                    }
                } else if !self.filtered_tasks.is_empty() {
                    self.selected_task = Some(0);
                }
            },
            Key::Up => {
                if let Some(selected) = self.selected_task {
                    if selected > 0 {
                        self.selected_task = Some(selected - 1);
                    }
                }
            },
            _ => {},
        }
    }

    /// Handles a key in the current input mode and says what storage must do
    /// (`command_for`); the state changes as `after_key` says (for `s`, the
    /// shown tasks are sorted by the next order). A command leaves the state
    /// unchanged until `complete_edit`.
    pub fn handle_input(&mut self, key: Key) -> (cmd: Command)
        requires
            old(self)@.key_ok(key),
        ensures
            cmd@ == old(self)@.command_for(key),
            !(old(self)@.input_mode == InputMode::Normal && key == Key::Char('s')) ==> final(self)@ == old(self)@.after_key(key),
            old(self)@.input_mode == InputMode::Normal && key == Key::Char('s') ==> final(self)@ == (AppView {
                filtered: final(self)@.filtered,
                ..old(self)@.after_key(key)
            }) && stably_sorted(next_sort_mode(old(self)@.sort_mode), old(self)@.filtered, final(self)@.filtered),
    {
        match self.input_mode {
            InputMode::Normal => {
                self.handle_normal_mode(key);
                Command::Nothing
            },
            InputMode::Editing => self.handle_editing_mode(key),
            InputMode::AddingSubtask => self.handle_adding_subtask_mode(key),
            InputMode::EditingSubtask => self.handle_editing_subtask_mode(key),
            InputMode::SettingDueDate => self.handle_setting_due_date_mode(key),
            InputMode::SettingPriority => self.handle_setting_priority_mode(key),
        }
    }

    fn handle_editing_mode(&mut self, key: Key) -> (cmd: Command)
        requires
            old(self)@.input_mode == InputMode::Editing,
            old(self)@.key_ok(key),
        ensures
            cmd@ == old(self)@.command_for(key),
            final(self)@ == old(self)@.after_key(key),
    {
        if key == Key::Enter {
            if let Some(selected) = self.selected_task {
                let mut task = self.filtered_tasks[selected].copy();
                task.title = self.input.clone();
                Command::UpdateTask(task)
            } else {
                let task = Task {
                    id: 0,
                    title: self.input.clone(),
                    description: String::new(),
                    due_date: None,
                    status: false,
                    priority: Priority::Medium,
                    subtasks: Vec::new(),
                };
                proof {
                    assert(task@.subtasks =~= Seq::<SubTaskView>::empty());
                }
                Command::AddTask(task)
            }
        } else {
            self.handle_typing(key);
            Command::Nothing
        }
    }

    fn handle_adding_subtask_mode(&mut self, key: Key) -> (cmd: Command)
        requires
            old(self)@.input_mode == InputMode::AddingSubtask,
            old(self)@.key_ok(key),
        ensures
            cmd@ == old(self)@.command_for(key),
            final(self)@ == old(self)@.after_key(key),
    {
        if key == Key::Enter {
            if let Some(selected) = self.selected_task {
                let subtask = SubTask { id: 0, title: self.input.clone(), status: false };
                Command::AddSubtask(self.filtered_tasks[selected].id, subtask)
            } else {
                self.input = String::new();
                self.input_mode = InputMode::Normal;
                Command::Nothing
            }
        } else {
            self.handle_typing(key);
            Command::Nothing
        }
    }

    /// Editing a subtask does not react to keys yet.
    fn handle_editing_subtask_mode(&mut self, key: Key) -> (cmd: Command)
        ensures
            cmd is Nothing,
            *final(self) == *old(self),
    {
        Command::Nothing
    }

    /// Setting a due date does not react to keys yet.
    fn handle_setting_due_date_mode(&mut self, key: Key) -> (cmd: Command)
        ensures
            cmd is Nothing,
            *final(self) == *old(self),
    {
        Command::Nothing
    }

    /// Setting a priority does not react to keys yet.
    fn handle_setting_priority_mode(&mut self, key: Key) -> (cmd: Command)
        ensures
            cmd is Nothing,
            *final(self) == *old(self),
    {
        Command::Nothing
    }
}

/// A displayed task: its check mark and its title.
pub struct TaskRow {
    pub mark: String,
    pub title: String,
}

/// `[x] ` for a completed task, `[ ] ` for an open one.
pub open spec fn status_mark(done: bool) -> Seq<char> {
    if done {
        "[x] "@
    } else {
        "[ ] "@
    }
}

impl App {
    /// The displayed lines, one per shown task.
    pub fn task_rows(&self) -> (rows: Vec<TaskRow>)
        ensures
            rows@.len() == self@.filtered.len(),
            forall|i: int|
                0 <= i < rows@.len() ==> rows@[i].mark@ == status_mark(self@.filtered[i].status)
                    && rows@[i].title@ == self@.filtered[i].title,
    {
        let mut rows: Vec<TaskRow> = Vec::new();
        let mut i: usize = 0;
        while i < self.filtered_tasks.len()
            invariant
                i <= self.filtered_tasks@.len(),
                rows@.len() == i,
                forall|k: int|
                    0 <= k < i ==> rows@[k].mark@ == status_mark(self@.filtered[k].status)
                        && rows@[k].title@ == self@.filtered[k].title,
            decreases self.filtered_tasks@.len() - i,
        {
            let t = &self.filtered_tasks[i];
            let mark = if t.status {
                String::from_str("[x] ")
            } else {
                String::from_str("[ ] ")
            };
            rows.push(TaskRow { mark, title: t.title.clone() });
            i = i + 1;
        }
        rows
    }
}

/// Pressing `s` five times goes once round the orders.
pub proof fn law_sort_mode_cycle(m: SortMode)
    ensures
        next_sort_mode(next_sort_mode(next_sort_mode(next_sort_mode(next_sort_mode(m))))) == m,
{
}

/// Escape while typing a task or subtask title drops the input and returns
/// to normal mode.
pub proof fn law_escape_cancels(s: AppView)
    requires
        s.input_mode == InputMode::Editing || s.input_mode == InputMode::AddingSubtask,
    ensures
        s.after_key(Key::Esc) == (AppView { input: seq![], input_mode: InputMode::Normal, ..s }),
        s.command_for(Key::Esc) is Nothing,
{
}

/// Typing a character and erasing it while editing restores the input.
pub proof fn law_type_then_erase(s: AppView, c: char)
    requires
        s.input_mode == InputMode::Editing || s.input_mode == InputMode::AddingSubtask,
    ensures
        s.after_key(Key::Char(c)).after_key(Key::Backspace) == s,
{
    assert(s.input.push(c).drop_last() =~= s.input);
}

/// Moving down and up in normal mode keeps the selection inside the shown
/// list.
pub proof fn law_selection_in_list(s: AppView, key: Key)
    requires
        s.input_mode == InputMode::Normal,
        key == Key::Down || key == Key::Up,
        s.key_ok(key),
        s.selected_task matches Some(i) ==> i < s.filtered.len(),
    ensures
        s.after_key(key).selected_task matches Some(i) ==> i < s.filtered.len(),
{
}

/// Task `i` of `input` comes before task `j` in a stable sort: it goes
/// before it, or they are tied and `i` comes first.
pub open spec fn index_before(mode: SortMode, input: Seq<TaskView>, i: int, j: int) -> bool {
    goes_before(mode, input[i], input[j]) || (!goes_before(mode, input[j], input[i]) && i < j)
}

proof fn lemma_witness_covers(mode: SortMode, input: Seq<TaskView>, output: Seq<TaskView>, p: Seq<int>, v: int)
    requires
        sort_witness(mode, input, output, p),
        0 <= v < input.len(),
    ensures
        exists|k: int| 0 <= k < p.len() && p[k] == v,
{
    let n = input.len() as int;
    assert(p.no_duplicates()) by {
        assert forall|i: int, j: int| 0 <= i < p.len() && 0 <= j < p.len() && i != j implies p[i] != p[j] by {
            if i < j {
                assert(p[i] != p[j]);
            } else {
                assert(p[j] != p[i]);
            }
        }
    }
    p.unique_seq_to_set();
    vstd::set_lib::lemma_int_range(0, n);
    assert(p.to_set().subset_of(vstd::set_lib::set_int_range(0, n))) by {
        assert forall|x: int| p.to_set().contains(x) implies vstd::set_lib::set_int_range(0, n).contains(x) by {
            let k = choose|k: int| 0 <= k < p.len() && p[k] == x;
            assert(0 <= p[k] < n);
        }
    }
    vstd::set_lib::lemma_subset_equality(p.to_set(), vstd::set_lib::set_int_range(0, n));
    assert(vstd::set_lib::set_int_range(0, n).contains(v));
    assert(p.to_set().contains(v));
    assert(p.contains(v));
}

proof fn lemma_witness_ordered(mode: SortMode, input: Seq<TaskView>, output: Seq<TaskView>, p: Seq<int>, k1: int, k2: int)
    requires
        sort_witness(mode, input, output, p),
        0 <= k1 < k2 < p.len(),
    ensures
        index_before(mode, input, p[k1], p[k2]),
{
    assert(output[k1] == input[p[k1]]);
    assert(output[k2] == input[p[k2]]);
    assert(!goes_before(mode, output[k2], output[k1]));
}

proof fn lemma_index_before_asymmetric(mode: SortMode, input: Seq<TaskView>, x: int, y: int)
    ensures
        !(index_before(mode, input, x, y) && index_before(mode, input, y, x)),
{
    lemma_goes_before_order(mode, input[x], input[y], input[x]);
}

proof fn lemma_witnesses_agree(
    mode: SortMode,
    input: Seq<TaskView>,
    a: Seq<TaskView>,
    b: Seq<TaskView>,
    p: Seq<int>,
    q: Seq<int>,
    k: int,
)
    requires
        sort_witness(mode, input, a, p),
        sort_witness(mode, input, b, q),
        0 <= k <= p.len(),
    ensures
        forall|m: int| 0 <= m < k ==> p[m] == q[m],
    decreases k,
{
    if k > 0 {
        lemma_witnesses_agree(mode, input, a, b, p, q, k - 1);
        let m = k - 1;
        if p[m] != q[m] {
            let x = q[m];
            let y = p[m];
            lemma_witness_covers(mode, input, a, p, x);
            lemma_witness_covers(mode, input, b, q, y);
            let kx = choose|j: int| 0 <= j < p.len() && p[j] == x;
            let ky = choose|j: int| 0 <= j < q.len() && q[j] == y;
            if kx < m {
                assert(q[kx] == x);
                assert(q[kx] != q[m]);
            }
            if ky < m {
                assert(p[ky] == y);
                assert(p[ky] != p[m]);
            }
            lemma_witness_ordered(mode, input, a, p, m, kx);
            lemma_witness_ordered(mode, input, b, q, m, ky);
            lemma_index_before_asymmetric(mode, input, x, y);
        }
    }
}

/// A stable sort has one result: two lists that are both `input` sorted
/// stably by the same order are equal.
pub proof fn law_stable_sort_unique(mode: SortMode, input: Seq<TaskView>, a: Seq<TaskView>, b: Seq<TaskView>)
    requires
        stably_sorted(mode, input, a),
        stably_sorted(mode, input, b),
    ensures
        a == b,
{
    let p = choose|p: Seq<int>| sort_witness(mode, input, a, p);
    let q = choose|q: Seq<int>| sort_witness(mode, input, b, q);
    lemma_witnesses_agree(mode, input, a, b, p, q, p.len() as int);
    assert forall|k: int| 0 <= k < a.len() implies a[k] == b[k] by {
        assert(p[k] == q[k]);
        assert(a[k] == input[p[k]]);
        assert(b[k] == input[q[k]]);
    }
    assert(a =~= b);
}

/// `a` starts a new task: nothing is selected, the input is empty, and
/// Enter then adds a task titled by what was typed.
pub proof fn law_add_key_adds(s: AppView, c: char)
    requires
        s.input_mode == InputMode::Normal,
    ensures
        ({
            let t = s.after_key(Key::Char('a'));
            &&& t.selected_task is None
            &&& t.input_mode == InputMode::Editing
            &&& t.command_for(Key::Enter) == CommandView::AddTask(new_task_view(seq![]))
            &&& t.after_key(Key::Char(c)).command_for(Key::Enter) == CommandView::AddTask(new_task_view(seq![c]))
        }),
{
    assert(Seq::<char>::empty().push(c) =~= seq![c]);
}

/// Typing and erasing while editing change only the input: the selection,
/// and so what Enter does to which task, stays.
pub proof fn law_typing_keeps_selection(s: AppView, key: Key)
    requires
        s.input_mode == InputMode::Editing,
        key is Char || key is Backspace,
    ensures
        s.after_key(key) == (AppView { input: s.after_key(key).input, ..s }),
{
}

/// `e` loads the title of the selected task as shown (in the current order
/// and filter) into the input and starts editing that same task.
pub proof fn law_edit_key_loads_shown_title(s: AppView, i: usize)
    requires
        s.input_mode == InputMode::Normal,
        s.selected_task == Some(i),
        i < s.filtered.len(),
    ensures
        s.after_key(Key::Char('e')).input == s.filtered[i as int].title,
        s.after_key(Key::Char('e')).input_mode == InputMode::Editing,
        s.after_key(Key::Char('e')).selected_task == Some(i),
        s.after_key(Key::Char('e')).filtered == s.filtered,
{
}

/// By due date, tasks without a date come first and dated tasks follow in
/// calendar order: by year, within a year by month, within a month by day.
pub proof fn law_due_date_order_is_chronological(input: Seq<TaskView>, output: Seq<TaskView>, k1: int, k2: int)
    requires
        stably_sorted(SortMode::DueDate, input, output),
        0 <= k1 < k2 < output.len(),
    ensures
        output[k1].due_date is Some ==> output[k2].due_date is Some,
        output[k1].due_date is Some && output[k2].due_date is Some ==> ({
            let x = output[k1].due_date.unwrap();
            let y = output[k2].due_date.unwrap();
            &&& x.year <= y.year
            &&& x.year == y.year ==> x.month <= y.month
            &&& x.year == y.year && x.month == y.month ==> x.day <= y.day
        }),
{
    let p = choose|p: Seq<int>| sort_witness(SortMode::DueDate, input, output, p);
    assert(!goes_before(SortMode::DueDate, output[k2], output[k1]));
}

/// By priority, high-priority tasks come first and low-priority tasks last;
/// by status, done tasks come before open ones.
pub proof fn law_priority_and_status_orders(mode: SortMode, input: Seq<TaskView>, output: Seq<TaskView>, k1: int, k2: int)
    requires
        stably_sorted(mode, input, output),
        0 <= k1 < k2 < output.len(),
    ensures
        mode == SortMode::Priority ==> (output[k2].priority == Priority::High ==> output[k1].priority == Priority::High),
        mode == SortMode::Priority ==> (output[k1].priority == Priority::Low ==> output[k2].priority == Priority::Low),
        mode == SortMode::Status ==> (output[k2].status ==> output[k1].status),
{
    let p = choose|p: Seq<int>| sort_witness(mode, input, output, p);
    assert(!goes_before(mode, output[k2], output[k1]));
}

} // verus!
