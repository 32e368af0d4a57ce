//! Where the task manager keeps its tasks.

use vstd::prelude::*;

verus! {

/// The kind of storage.
#[derive(Clone, Copy, Debug, PartialEq, Eq, Structural)]
pub enum StorageType {
    Json,
    Sqlite,
}

/// The task manager's settings.
pub struct Config {
    pub storage_type: StorageType,
}

impl Config {
    /// The default settings: JSON storage.
    pub fn new() -> (c: Config)
        ensures
            c.storage_type == StorageType::Json,
    {
        Config { storage_type: StorageType::Json }
    }
}

} // verus!
