//! Merged cell regions for a spreadsheet workbook: creating, querying and
//! removing merges, keeping them consistent under structural edits, and
//! recording every change so that it can be undone and redone. Formulas are
//! evaluated against the grid as it stands, so every change is seen by the
//! formulas that depend on it.

pub mod types;
pub mod geometry;
pub mod grid;
pub mod edit;
pub mod displace;
pub mod formula;
pub mod eval;
pub mod names;
pub mod worksheet;
pub mod model;
pub mod merge_cells;
pub mod user_model;
pub mod laws;

pub use types::{Area, Cell, CellContent, CellStructure, Font, Link, MergeCell, Slot, Style};
pub use model::Model;
pub use user_model::common::UserModel;
