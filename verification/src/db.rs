//! A task as the task dialog stores it.

use vstd::prelude::*;

verus! {

/// A task row: all fields as text, as the dialog collects them.
#[derive(Debug)]
pub struct Task {
    pub id: i32,
    pub title: String,
    pub description: String,
    pub category: String,
    pub parent_task_id: Option<i32>,
    pub due_date: Option<String>,
    /// Format: "HH:MM".
    pub time: Option<String>,
    pub priority: String,
    pub status: String,
}

} // verus!
