//! Merging and unmerging through the user model, with history.
use vstd::prelude::*;

use crate::eval::{cell_value, Val};
use crate::geometry::covers;
use crate::merge_cells::{merge_error, spill_blocks};
use crate::model::invalid_sheet_message;
use crate::types::MergeCell;
use crate::user_model::common::UserModel;
use crate::user_model::history::{recorded, Diff, DiffState};
use crate::worksheet::{covered_snapshot, merged, region_at, region_index_at, unmerged};

verus! {

impl UserModel {
    /// Merges the rectangle anchored at `(row, column)` spanning `width` columns
    /// and `height` rows into a single region, keeping only the anchor value and
    /// clearing the covered cells' content. Undoable as a single history entry
    /// that restores the discarded content.
    ///
    /// See also:
    /// * [`crate::model::Model::merge_cells`]
    pub fn merge_cells(&mut self, sheet: u32, row: i32, column: i32, width: i32, height: i32) -> (r:
        Result<(), String>)
        requires
            old(self).wf(),
        ensures
            final(self).wf(),
            ({
                let m = MergeCell { row, column, width, height };
                let u = old(self).state();
                match r {
                    Ok(()) => {
                        &&& sheet < u.sheets.len()
                        &&& merge_error(u.sheets[sheet as int], m) is None
                        &&& forall|rr: int, cc: int, fuel: nat|
                            covers(m, rr, cc) ==> #[trigger] cell_value(
                                final(self).state().sheets[sheet as int].grid,
                                (rr, cc),
                                fuel,
                            ) == Val::Blank
                        &&& final(self).state() == recorded(
                            u,
                            u.sheets.update(sheet as int, merged(u.sheets[sheet as int], m)),
                            DiffState::Merge {
                                sheet: sheet as int,
                                region: m,
                                old_covered: covered_snapshot(u.sheets[sheet as int], m),
                            },
                        )
                    },
                    Err(e) => {
                        &&& final(self).state() == u
                        &&& if sheet < u.sheets.len() {
                            merge_error(u.sheets[sheet as int], m) == Some(e@)
                        } else {
                            e@ == invalid_sheet_message()
                        }
                    },
                }
            }),
    {
        let old_covered = self.model.merge_cells(sheet, row, column, width, height)?;
        proof {
            let m = MergeCell { row, column, width, height };
            let st = old(self).state().sheets[sheet as int];
            crate::merge_cells::lemma_merge_ok_valid(st, m);
            let snap = covered_snapshot(st, m);
            assert(snap.len() == height);
            assert(crate::worksheet::rows_view(old_covered@).len() == old_covered@.len());
            assert forall|i: int| 0 <= i < height implies (#[trigger] old_covered@[i])@.len() == width by {
                assert(crate::worksheet::rows_view(old_covered@)[i] == old_covered@[i]@);
                assert(snap[i].len() == width);
            }
            assert(self.model.worksheets@.len() == old(self).model.worksheets@.len());
        }
        self.push_diff(Diff::MergeCells { sheet, row, column, width, height, old_covered });
        proof {
            let m = MergeCell { row, column, width, height };
            let st = old(self).state().sheets[sheet as int];
            assert(self.state().sheets[sheet as int] == merged(st, m));
            assert forall|rr: int, cc: int, fuel: nat| covers(m, rr, cc) implies #[trigger] cell_value(
                self.state().sheets[sheet as int].grid,
                (rr, cc),
                fuel,
            ) == Val::Blank by {
                crate::laws::law_merge_covered_reads_blank(st, m, rr, cc, fuel);
            }
        }
        Ok(())
    }

    /// Removes the merged region containing `(row, column)` (anchor or any
    /// covered cell). A no-op if the cell is not merged. Undoable/redoable.
    ///
    /// See also:
    /// * [`crate::model::Model::unmerge_cells`]
    pub fn unmerge_cells(&mut self, sheet: u32, row: i32, column: i32) -> (r: Result<(), String>)
        requires
            old(self).wf(),
        ensures
            final(self).wf(),
            ({
                let u = old(self).state();
                match r {
                    Ok(()) => sheet < u.sheets.len() && match region_at(
                        u.sheets[sheet as int].merges,
                        row as int,
                        column as int,
                    ) {
                        Some(m) => {
                            &&& final(self).state() == recorded(
                                u,
                                u.sheets.update(
                                    sheet as int,
                                    unmerged(
                                        u.sheets[sheet as int],
                                        region_index_at(u.sheets[sheet as int].merges, row as int, column as int),
                                    ),
                                ),
                                DiffState::Unmerge { sheet: sheet as int, region: m },
                            )
                            &&& !spill_blocks(u.sheets[sheet as int], m) ==> forall|rr: int, cc: int, fuel: nat|
                                covers(m, rr, cc) ==> #[trigger] cell_value(
                                    final(self).state().sheets[sheet as int].grid,
                                    (rr, cc),
                                    fuel,
                                ) == Val::Blank
                        },
                        None => final(self).state() == u,
                    },
                    Err(e) => {
                        &&& final(self).state() == u
                        &&& sheet >= u.sheets.len()
                        &&& e@ == invalid_sheet_message()
                    },
                }
            }),
    {
        let removed = self.model.unmerge_cells(sheet, row, column)?;
        if let Some(region) = removed {
            proof {
                let ms = old(self).state().sheets[sheet as int].merges;
                let i = region_index_at(ms, row as int, column as int);
                assert(old(self).model.worksheets@[sheet as int].wf());
                assert(crate::geometry::region_valid(ms[i]));
                assert(self.model.worksheets@.len() == old(self).model.worksheets@.len());
            }
            proof {
                let st = old(self).state().sheets[sheet as int];
                let i = region_index_at(st.merges, row as int, column as int);
                assert(old(self).model.worksheets@[sheet as int].wf());
                assert forall|rr: int, cc: int, fuel: nat|
                    !spill_blocks(st, st.merges[i]) && covers(st.merges[i], rr, cc) implies #[trigger] cell_value(
                    unmerged(st, i).grid,
                    (rr, cc),
                    fuel,
                ) == Val::Blank by {
                    crate::laws::law_unmerge_covered_stays_blank(st, i, rr, cc, fuel);
                }
            }
            // Record the removed region by its anchor so undo/redo are
            // unambiguous even when the caller passed a covered cell.
            self.push_diff(
                Diff::UnmergeCells {
                    sheet,
                    row: region.row,
                    column: region.column,
                    width: region.width,
                    height: region.height,
                },
            );
        }
        Ok(())
    }

    /// Returns every merged region on `sheet`.
    ///
    /// See also:
    /// * [`crate::model::Model::get_merge_cells`]
    pub fn get_merge_cells(&self, sheet: u32) -> (r: Result<Vec<MergeCell>, String>)
        ensures
            match r {
                Ok(v) => sheet < self.state().sheets.len() && v@ == self.state().sheets[sheet as int].merges,
                Err(e) => sheet >= self.state().sheets.len() && e@ == invalid_sheet_message(),
            },
    {
        self.model.get_merge_cells(sheet)
    }

    /// Returns the merged region covering `(row, column)` (anchor or covered), or
    /// `None` if the cell is not merged.
    ///
    /// See also:
    /// * [`crate::model::Model::get_merge_cell`]
    pub fn get_merge_cell(&self, sheet: u32, row: i32, column: i32) -> (r: Result<Option<MergeCell>, String>)
        requires
            self.wf(),
        ensures
            match r {
                Ok(v) => sheet < self.state().sheets.len() && v == region_at(
                    self.state().sheets[sheet as int].merges,
                    row as int,
                    column as int,
                ),
                Err(e) => sheet >= self.state().sheets.len() && e@ == invalid_sheet_message(),
            },
    {
        self.model.get_merge_cell(sheet, row, column)
    }
}

} // verus!
