//! Verified logic of three terminal applications: a browser for the
//! "awesome" list (readme parsing, filtering, key handling), a category
//! browser over a JSON catalogue, and a task manager (sorting, filtering,
//! editing state machines, pop-up placement).

pub mod text;
pub mod readme;
pub mod keys;
pub mod awesome;
pub mod data;
pub mod search;
pub mod ui;
pub mod app;
pub mod config;
pub mod db;
pub mod dialog;
pub mod layout;
