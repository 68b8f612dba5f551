//! Vergissmeinnicht: task-management logic for a Taskwarrior-compatible
//! client — quick-capture and date parsing, sidebar filters, search,
//! sorting, AI-assistant helpers and a TaskChampion-backed store.

pub mod ai;
pub mod backup;
pub mod config;
pub mod dates;
pub mod filters;
pub mod fuzzy;
pub mod num;
pub mod parsers;
pub mod prompts;
pub mod secrets;
pub mod sidebar;
pub mod state;
pub mod task;
pub mod text;
pub mod transcribe;
pub mod types;
pub mod ui;

use vstd::prelude::*;

verus! {

} // verus!
