//! The user-facing model: every change is recorded so that it can be undone
//! and redone.

pub mod history;
pub mod common;
pub mod cells;
pub mod structure;
pub mod undo_redo;
pub mod merge_cells;
