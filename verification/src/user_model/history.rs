//! The entries of the undo and redo history.
use vstd::prelude::*;

use crate::geometry::region_valid;
use crate::merge_cells::overlaps_existing;
use crate::types::{Cell, MergeCell};
use crate::worksheet::{
    merged, region_at, region_index_at, restored_grid, rows_view, unmerged, SheetState, Worksheet,
};

verus! {

/// One recorded change.
#[derive(Debug)]
pub enum Diff {
    /// A merge; `old_covered` is the content it discarded, row by row over the
    /// region (the anchor slot is `None`).
    MergeCells {
        sheet: u32,
        row: i32,
        column: i32,
        width: i32,
        height: i32,
        old_covered: Vec<Vec<Option<Cell>>>,
    },
    /// The removal of a merged region, recorded by its anchor.
    UnmergeCells { sheet: u32, row: i32, column: i32, width: i32, height: i32 },
    /// A change of a whole worksheet: `other` is the version that undo (or
    /// redo) puts back, exchanging it with the current one.
    SwapSheet { sheet: u32, other: Worksheet },
}

/// A recorded change, as seen from outside.
pub enum DiffState {
    Merge { sheet: int, region: MergeCell, old_covered: Seq<Seq<Option<Cell>>> },
    Unmerge { sheet: int, region: MergeCell },
    Swap { sheet: int, other: SheetState },
}

/// The model as seen from outside: the worksheets and the two histories.
pub struct UserState {
    pub sheets: Seq<SheetState>,
    pub undo: Seq<DiffState>,
    pub redo: Seq<DiffState>,
}

impl Diff {
    pub open spec fn state(&self) -> DiffState {
        match self {
            Diff::MergeCells { sheet, row, column, width, height, old_covered } => DiffState::Merge {
                sheet: *sheet as int,
                region: MergeCell { row: *row, column: *column, width: *width, height: *height },
                old_covered: rows_view(old_covered@),
            },
            Diff::UnmergeCells { sheet, row, column, width, height } => DiffState::Unmerge {
                sheet: *sheet as int,
                region: MergeCell { row: *row, column: *column, width: *width, height: *height },
            },
            Diff::SwapSheet { sheet, other } => DiffState::Swap { sheet: *sheet as int, other: other.state() },
        }
    }

    /// The entry fits a workbook of `n` sheets.
    pub open spec fn wf(&self, n: int) -> bool {
        match self {
            Diff::MergeCells { sheet, row, column, width, height, old_covered } => {
                &&& *sheet < n
                &&& region_valid(MergeCell { row: *row, column: *column, width: *width, height: *height })
                &&& old_covered@.len() == *height
                &&& forall|i: int| 0 <= i < *height ==> (#[trigger] old_covered@[i])@.len() == *width
            },
            Diff::UnmergeCells { sheet, row, column, width, height } => {
                &&& *sheet < n
                &&& region_valid(MergeCell { row: *row, column: *column, width: *width, height: *height })
            },
            Diff::SwapSheet { sheet, other } => *sheet < n && other.wf(),
        }
    }
}

/// All entries of a history fit a workbook of `n` sheets.
pub open spec fn diffs_wf(ds: Seq<Diff>, n: int) -> bool {
    forall|i: int| 0 <= i < ds.len() ==> (#[trigger] ds[i]).wf(n)
}

pub open spec fn diffs_state(ds: Seq<Diff>) -> Seq<DiffState> {
    Seq::new(ds.len(), |i: int| ds[i].state())
}

/// `m` is exactly the region found at its own anchor.
pub open spec fn region_present(st: SheetState, m: MergeCell) -> bool {
    region_at(st.merges, m.row as int, m.column as int) == Some(m)
}

/// Taking back the change `d`: the new sheets and the entry to keep for redo,
/// or `None` when the sheets do not allow it.
pub open spec fn undo_step(sheets: Seq<SheetState>, d: DiffState) -> Option<(Seq<SheetState>, DiffState)> {
    match d {
        DiffState::Merge { sheet, region, old_covered } => {
            let st = sheets[sheet];
            if region_present(st, region) {
                Some(
                    (
                        sheets.update(
                            sheet,
                            SheetState {
                                grid: restored_grid(st.grid, region, old_covered),
                                merges: st.merges.remove(region_index_at(st.merges, region.row as int, region.column as int)),
                            },
                        ),
                        d,
                    ),
                )
            } else {
                None
            }
        },
        DiffState::Unmerge { sheet, region } => {
            let st = sheets[sheet];
            if !overlaps_existing(st, region) {
                Some((sheets.update(sheet, merged(st, region)), d))
            } else {
                None
            }
        },
        DiffState::Swap { sheet, other } => Some(
            (sheets.update(sheet, other), DiffState::Swap { sheet, other: sheets[sheet] }),
        ),
    }
}

/// Making the change `d` again: the new sheets and the entry to keep for undo.
pub open spec fn redo_step(sheets: Seq<SheetState>, d: DiffState) -> Option<(Seq<SheetState>, DiffState)> {
    match d {
        DiffState::Merge { sheet, region, old_covered } => {
            let st = sheets[sheet];
            if !overlaps_existing(st, region) {
                Some((sheets.update(sheet, merged(st, region)), d))
            } else {
                None
            }
        },
        DiffState::Unmerge { sheet, region } => {
            let st = sheets[sheet];
            if region_present(st, region) {
                Some(
                    (
                        sheets.update(
                            sheet,
                            unmerged(st, region_index_at(st.merges, region.row as int, region.column as int)),
                        ),
                        d,
                    ),
                )
            } else {
                None
            }
        },
        DiffState::Swap { sheet, other } => Some(
            (sheets.update(sheet, other), DiffState::Swap { sheet, other: sheets[sheet] }),
        ),
    }
}

/// The state after `undo`: unchanged when there is nothing to undo; `None`
/// when the last entry cannot be taken back.
pub open spec fn undone(u: UserState) -> Option<UserState> {
    if u.undo.len() == 0 {
        Some(u)
    } else {
        match undo_step(u.sheets, u.undo.last()) {
            Some((sheets, d)) => Some(UserState { sheets, undo: u.undo.drop_last(), redo: u.redo.push(d) }),
            None => None,
        }
    }
}

/// The state after `redo`: unchanged when there is nothing to redo; `None`
/// when the last undone entry cannot be made again.
pub open spec fn redone(u: UserState) -> Option<UserState> {
    if u.redo.len() == 0 {
        Some(u)
    } else {
        match redo_step(u.sheets, u.redo.last()) {
            Some((sheets, d)) => Some(UserState { sheets, undo: u.undo.push(d), redo: u.redo.drop_last() }),
            None => None,
        }
    }
}

/// The state after a change `d` that turned the sheets into `sheets`: `d`
/// joins the undo history and the redo history is dropped.
pub open spec fn recorded(u: UserState, sheets: Seq<SheetState>, d: DiffState) -> UserState {
    UserState { sheets, undo: u.undo.push(d), redo: Seq::empty() }
}

/// The state after a change of sheet `sheet` into `st`, recorded as a swap.
pub open spec fn recorded_swap(u: UserState, sheet: int, st: SheetState) -> UserState {
    recorded(u, u.sheets.update(sheet, st), DiffState::Swap { sheet, other: u.sheets[sheet] })
}

} // verus!
