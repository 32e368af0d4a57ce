use tui_suite::app::{select_scored, App, Command, Date, InputMode, Priority, SortMode, SubTask, Task};
use tui_suite::config::{Config, StorageType};
use tui_suite::db;
use tui_suite::dialog::{main_key, parent_candidates, FocusedField, MainAction, Outcome, TaskDialog};
use tui_suite::layout::centered_rect;
use tui_suite::keys::Key;

fn task(id: i64, title: &str, due: Option<(i32, u32, u32)>, status: bool, priority: Priority) -> Task {
    Task {
        id,
        title: title.to_string(),
        description: String::new(),
        due_date: due.map(|(year, month, day)| Date { year, month, day }),
        status,
        priority,
        subtasks: vec![SubTask { id: id * 10, title: format!("step of {}", title), status: false }],
    }
}

fn sample() -> Vec<Task> {
    vec![
        task(1, "write report", Some((2024, 5, 1)), false, Priority::Low),
        task(2, "buy milk", None, true, Priority::High),
        task(3, "call bank", Some((2023, 12, 31)), false, Priority::Medium),
        task(4, "archive mail", Some((2024, 5, 1)), true, Priority::High),
    ]
}

fn ids(app: &App) -> Vec<i64> {
    app.filtered_tasks.iter().map(|t| t.id).collect()
}

fn sorted_ids(mode_presses: usize) -> Vec<i64> {
    let mut app = App::new();
    app.refresh_tasks(sample());
    for _ in 0..mode_presses {
        app.handle_input(Key::Char('s'));
    }
    ids(&app)
}

#[test]
fn new_app_is_empty() {
    let app = App::new();
    assert!(app.tasks.is_empty());
    assert!(app.filtered_tasks.is_empty());
    assert_eq!(app.selected_task, None);
    assert_eq!(app.input_mode, InputMode::Normal);
    assert_eq!(app.sort_mode, SortMode::Default);
    assert!(!app.should_quit());
}

#[test]
fn refresh_shows_all_tasks_in_default_order() {
    assert_eq!(sorted_ids(0), vec![1, 2, 3, 4]);
}

#[test]
fn sort_by_title() {
    assert_eq!(sorted_ids(1), vec![4, 2, 3, 1]);
}

#[test]
fn sort_by_due_date_keeps_ties_in_order() {
    // The list was last sorted by title: 4, 2, 3, 1; tasks 4 and 1 share a date.
    assert_eq!(sorted_ids(2), vec![2, 3, 4, 1]);
}

#[test]
fn sort_by_priority_highest_first() {
    assert_eq!(sorted_ids(3), vec![2, 4, 3, 1]);
}

#[test]
fn sort_by_status_done_first() {
    // The list was last sorted by priority: 2, 4, 3, 1.
    assert_eq!(sorted_ids(4), vec![2, 4, 3, 1]);
    assert_eq!(sorted_ids(5), vec![2, 4, 3, 1]);
}

#[test]
fn sort_mode_cycles() {
    let mut app = App::new();
    let modes = [SortMode::Title, SortMode::DueDate, SortMode::Priority, SortMode::Status, SortMode::Default];
    for m in modes.iter() {
        app.cycle_sort_mode();
        assert_eq!(app.sort_mode, *m);
    }
}

#[test]
fn search_input_filters_fuzzily() {
    let mut app = App::new();
    app.handle_input(Key::Char('a'));
    for c in "bnk".chars() {
        app.handle_input(Key::Char(c));
    }
    app.refresh_tasks(sample());
    assert_eq!(ids(&app), vec![3]);
}

#[test]
fn selection_moves_within_list() {
    let mut app = App::new();
    app.refresh_tasks(sample());
    app.handle_input(Key::Up);
    assert_eq!(app.selected_task, None);
    app.handle_input(Key::Down);
    assert_eq!(app.selected_task, Some(0));
    for _ in 0..5 {
        app.handle_input(Key::Down);
    }
    assert_eq!(app.selected_task, Some(3));
    app.handle_input(Key::Up);
    assert_eq!(app.selected_task, Some(2));
}

#[test]
fn editing_a_task_renames_it() {
    let mut app = App::new();
    app.refresh_tasks(sample());
    app.handle_input(Key::Down);
    assert!(matches!(app.handle_input(Key::Char('e')), Command::Nothing));
    assert_eq!(app.input_mode, InputMode::Editing);
    assert_eq!(app.input, "write report");
    app.handle_input(Key::Char('s'));
    app.handle_input(Key::Char('x'));
    app.handle_input(Key::Backspace);
    match app.handle_input(Key::Enter) {
        Command::UpdateTask(t) => {
            assert_eq!(t.id, 1);
            assert_eq!(t.title, "write reports");
            assert_eq!(t.subtasks.len(), 1);
        }
        _ => panic!("expected an update"),
    }
    assert_eq!(app.input_mode, InputMode::Editing);
    let mut stored = sample();
    stored[0].title = "write reports".to_string();
    app.complete_edit(stored);
    assert_eq!(app.input_mode, InputMode::Normal);
    assert_eq!(app.input, "");
    assert_eq!(app.filtered_tasks[0].title, "write reports");
}

#[test]
fn adding_a_task() {
    let mut app = App::new();
    app.handle_input(Key::Char('a'));
    for c in "plan".chars() {
        app.handle_input(Key::Char(c));
    }
    match app.handle_input(Key::Enter) {
        Command::AddTask(t) => {
            assert_eq!(t.id, 0);
            assert_eq!(t.title, "plan");
            assert_eq!(t.description, "");
            assert_eq!(t.due_date, None);
            assert!(!t.status);
            assert_eq!(t.priority, Priority::Medium);
            assert!(t.subtasks.is_empty());
        }
        _ => panic!("expected a new task"),
    }
}

#[test]
fn escape_cancels_editing() {
    let mut app = App::new();
    app.handle_input(Key::Char('a'));
    app.handle_input(Key::Char('x'));
    app.handle_input(Key::Esc);
    assert_eq!(app.input_mode, InputMode::Normal);
    assert_eq!(app.input, "");
}

#[test]
fn adding_a_subtask() {
    let mut app = App::new();
    app.refresh_tasks(sample());
    app.handle_input(Key::Down);
    app.handle_input(Key::Down);
    app.input_mode = InputMode::AddingSubtask;
    app.handle_input(Key::Char('x'));
    match app.handle_input(Key::Enter) {
        Command::AddSubtask(task_id, s) => {
            assert_eq!(task_id, 2);
            assert_eq!(s.title, "x");
            assert!(!s.status);
        }
        _ => panic!("expected a subtask"),
    }
    app.selected_task = None;
    assert!(matches!(app.handle_input(Key::Enter), Command::Nothing));
    assert_eq!(app.input_mode, InputMode::Normal);
    assert_eq!(app.input, "");
}

#[test]
fn delete_asks_for_confirmation() {
    let mut app = App::new();
    app.refresh_tasks(sample());
    app.handle_input(Key::Char('d'));
    assert!(app.confirmation_dialog.is_none());
    app.handle_input(Key::Down);
    app.handle_input(Key::Char('d'));
    let d = app.confirmation_dialog.as_ref().unwrap();
    assert_eq!(d.message, ["Are you sure you want to delete this", "task? (y/n)"].join(" "));
}

#[test]
fn quit_and_errors() {
    let mut app = App::new();
    app.handle_input(Key::Char('q'));
    assert!(app.should_quit());
    app.show_error("disk full".to_string());
    assert_eq!(app.error_message, Some("disk full".to_string()));
}

#[test]
fn rows_show_status() {
    let mut app = App::new();
    app.refresh_tasks(sample());
    let rows = app.task_rows();
    assert_eq!(rows[0].mark, "[ ] ");
    assert_eq!(rows[1].mark, "[x] ");
    assert_eq!(rows[1].title, "buy milk");
}

#[test]
fn default_config_uses_json() {
    assert_eq!(Config::new().storage_type, StorageType::Json);
}

#[test]
fn dialog_collects_a_task() {
    let mut d = TaskDialog::new();
    for c in "Tax".chars() {
        assert!(matches!(d.handle_key(Key::Char(c)), Outcome::Continue));
    }
    d.handle_key(Key::Tab);
    d.handle_key(Key::Char('d'));
    d.handle_key(Key::Tab);
    d.handle_key(Key::Char('z'));
    d.handle_key(Key::Tab);
    d.handle_key(Key::Tab);
    assert_eq!(d.focused_field, FocusedField::DueDate);
    for c in "2024-04-30".chars() {
        d.handle_key(Key::Char(c));
    }
    d.handle_key(Key::Backspace);
    d.handle_key(Key::BackTab);
    assert_eq!(d.focused_field, FocusedField::ParentTask);
    match d.handle_key(Key::Enter) {
        Outcome::Submit(t) => {
            assert_eq!(t.id, 0);
            assert_eq!(t.title, "Tax");
            assert_eq!(t.description, "d");
            assert_eq!(t.category, "Personal");
            assert_eq!(t.parent_task_id, None);
            assert_eq!(t.due_date, Some("2024-04-3".to_string()));
            assert_eq!(t.time, Some(String::new()));
            assert_eq!(t.priority, "High");
            assert_eq!(t.status, "To Do");
        }
        _ => panic!("expected a submitted task"),
    }
    assert!(matches!(d.handle_key(Key::Esc), Outcome::Cancel));
}

#[test]
fn dialog_focus_wraps() {
    let mut d = TaskDialog::new();
    d.handle_key(Key::BackTab);
    assert_eq!(d.focused_field, FocusedField::Status);
    for _ in 0..8 {
        d.handle_key(Key::Tab);
    }
    assert_eq!(d.focused_field, FocusedField::Status);
}

#[test]
fn parent_candidates_by_title() {
    let t = |title: &str| db::Task {
        id: 0,
        title: title.to_string(),
        description: String::new(),
        category: String::new(),
        parent_task_id: None,
        due_date: None,
        time: None,
        priority: String::new(),
        status: String::new(),
    };
    let tasks = vec![t("home work"), t("garden"), t("homework 2")];
    assert_eq!(parent_candidates(&tasks, "home"), vec![0, 2]);
    assert_eq!(parent_candidates(&tasks, ""), vec![0, 1, 2]);
}

#[test]
fn sorting_again_changes_nothing() {
    let mut app = App::new();
    app.refresh_tasks(sample());
    app.cycle_sort_mode();
    app.sort_tasks();
    let once = ids(&app);
    app.sort_tasks();
    assert_eq!(ids(&app), once);
    assert_eq!(once, vec![4, 2, 3, 1]);
}

#[test]
fn dialog_type_then_erase() {
    let mut d = TaskDialog::new();
    d.handle_key(Key::Char('a'));
    d.handle_key(Key::Char('b'));
    d.handle_key(Key::Backspace);
    assert_eq!(d.title, "a");
    d.handle_key(Key::Tab);
    d.handle_key(Key::Tab);
    d.handle_key(Key::Char('c'));
    d.handle_key(Key::Backspace);
    d.handle_key(Key::Backspace);
    assert_eq!(d.title, "a");
    assert_eq!(d.description, "");
    assert_eq!(d.focused_field, FocusedField::Category);
}

#[test]
fn empty_search_shows_every_task() {
    let mut app = App::new();
    app.handle_input(Key::Char('a'));
    app.handle_input(Key::Char('x'));
    app.handle_input(Key::Backspace);
    app.refresh_tasks(sample());
    assert_eq!(ids(&app), vec![1, 2, 3, 4]);
}

#[test]
fn tasks_with_a_score_are_kept() {
    let kept = select_scored(&sample(), &vec![Some(3), None, Some(0), None]);
    let kept_ids: Vec<i64> = kept.iter().map(|t| t.id).collect();
    assert_eq!(kept_ids, vec![1, 3]);
    assert_eq!(kept[0].subtasks[0].title, "step of write report");
}

#[test]
fn adding_with_a_task_selected_adds() {
    let mut app = App::new();
    app.refresh_tasks(sample());
    app.handle_input(Key::Down);
    assert_eq!(app.selected_task, Some(0));
    app.handle_input(Key::Char('a'));
    assert_eq!(app.selected_task, None);
    assert_eq!(app.input_mode, InputMode::Editing);
    app.handle_input(Key::Char('x'));
    match app.handle_input(Key::Enter) {
        Command::AddTask(t) => assert_eq!(t.title, "x"),
        _ => panic!("expected a new task"),
    }
}

#[test]
fn search_with_upper_case_is_exact() {
    for input in ["Bnk", "BNK"] {
        let mut app = App::new();
        app.handle_input(Key::Char('a'));
        for c in input.chars() {
            app.handle_input(Key::Char(c));
        }
        app.refresh_tasks(sample());
        assert!(ids(&app).is_empty());
    }
    let mut app = App::new();
    app.handle_input(Key::Char('a'));
    for c in "BUY".chars() {
        app.handle_input(Key::Char(c));
    }
    let mut stored = sample();
    stored[1].title = "BUY milk".to_string();
    app.refresh_tasks(stored);
    assert_eq!(ids(&app), vec![2]);
}

#[test]
fn main_screen_keys() {
    assert_eq!(main_key(Key::Char('a'), true), MainAction::OpenDialog);
    assert_eq!(main_key(Key::Char('a'), false), MainAction::Nothing);
    assert_eq!(main_key(Key::Char('b'), true), MainAction::Nothing);
    assert_eq!(main_key(Key::Esc, false), MainAction::Quit);
    assert_eq!(main_key(Key::Enter, false), MainAction::Nothing);
}

#[test]
fn pop_up_is_centred() {
    assert_eq!(centered_rect(60, 20, (0, 0, 100, 50)), (20, 20, 60, 10));
    assert_eq!(centered_rect(100, 100, (5, 7, 40, 30)), (5, 7, 40, 30));
}
