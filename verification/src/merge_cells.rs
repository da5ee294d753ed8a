//! Merging and unmerging rectangles of cells, and querying merged regions.
use vstd::prelude::*;

use crate::formula::formula_spill_size;
use crate::geometry::{last_column, last_row, overlaps, region_valid, regions_intersect, regions_wf};
use crate::grid::{entries_wf, has_key, lookup, valid_position};
use crate::model::{invalid_sheet_message, spill_of, Model};
use crate::types::{Cell, CellContent, MergeCell, LAST_COLUMN, LAST_ROW};
use crate::worksheet::{
    covered_snapshot, merged, region_at, region_index_at, rows_view, unmerged, SheetState, Worksheet,
};

verus! {

/// Some spilling formula of the sheet spills over a cell of `m`.
pub open spec fn spill_blocks(st: SheetState, m: MergeCell) -> bool {
    exists|r: int, c: int|
        #![trigger st.grid[(r, c)]]
        valid_position(r, c) && match spill_of(st.grid[(r, c)]) {
            Some(sz) => r <= last_row(m) && m.row <= r + sz.1 - 1 && c <= last_column(m) && m.column
                <= c + sz.0 - 1,
            None => false,
        }
}

/// Some existing region shares a cell with `m`.
pub open spec fn overlaps_existing(st: SheetState, m: MergeCell) -> bool {
    exists|i: int| 0 <= i < st.merges.len() && overlaps(#[trigger] st.merges[i], m)
}

/// Why `m` cannot be merged on a sheet in state `st`, checked in order; `None`
/// when it can.
pub open spec fn merge_error(st: SheetState, m: MergeCell) -> Option<Seq<char>> {
    if m.row < 1 || m.column < 1 || last_row(m) > LAST_ROW || last_column(m) > LAST_COLUMN {
        Some("Merge range is out of bounds"@)
    } else if m.width < 1 || m.height < 1 {
        Some("Merge width and height must be at least 1"@)
    } else if m.width == 1 && m.height == 1 {
        Some("Cannot merge a single cell"@)
    } else if overlaps_existing(st, m) {
        Some("Merge range overlaps an existing merged region"@)
    } else if spill_blocks(st, m) {
        Some("Cannot merge cells that contain an array formula"@)
    } else {
        None
    }
}

/// A region that passed the checks is valid.
pub proof fn lemma_merge_ok_valid(st: SheetState, m: MergeCell)
    requires
        merge_error(st, m) is None,
    ensures
        region_valid(m),
        forall|i: int| 0 <= i < st.merges.len() ==> !overlaps(#[trigger] st.merges[i], m),
{
}

/// Whether a spilling formula stored in the sheet spills over a cell of `m`.
fn array_formula_blocks(worksheet: &Worksheet, m: &MergeCell) -> (r: bool)
    requires
        worksheet.wf(),
        region_valid(*m),
    ensures
        r == spill_blocks(worksheet.state(), *m),
{
    let ghost st = worksheet.state();
    let ghost s = worksheet.cells@;
    let n = worksheet.cells.len();
    let mut i: usize = 0;
    while i < n
        invariant
            n == s.len(),
            s == worksheet.cells@,
            st == worksheet.state(),
            entries_wf(s),
            region_valid(*m),
            i <= n,
            forall|j: int|
                0 <= j < i ==> match spill_of(#[trigger] s[j].slot) {
                    Some(sz) => !(s[j].row <= last_row(*m) && m.row <= s[j].row + sz.1 - 1 && s[j].column
                        <= last_column(*m) && m.column <= s[j].column + sz.0 - 1),
                    None => true,
                },
        decreases n - i,
    {
        let entry = &worksheet.cells[i];
        if let CellContent::ArrayFormula { width: aw, height: ah, .. } = &entry.slot.cell.content {
            let (er, ec, aw, ah) = (entry.row as i64, entry.column as i64, *aw as i64, *ah as i64);
            if er <= m.row as i64 + m.height as i64 - 1 && m.row as i64 <= er + ah - 1 && ec <= m.column as i64
                + m.width as i64 - 1 && m.column as i64 <= ec + aw - 1 {
                proof {
                    let (r, c) = (entry.row as int, entry.column as int);
                    crate::grid::lemma_lookup_entry(s, i as int);
                    assert(valid_position(s[i as int].row as int, s[i as int].column as int));
                    assert(st.grid[(r, c)] == s[i as int].slot);
                }
                return true;
            }
        }
        if let CellContent::Formula(f) = &entry.slot.cell.content {
            if let Some((aw, ah)) = formula_spill_size(f.as_str()) {
                let occupied = MergeCell { row: entry.row, column: entry.column, width: aw, height: ah };
                assert(valid_position(s[i as int].row as int, s[i as int].column as int));
                if regions_intersect(&occupied, m) {
                    proof {
                        let (r, c) = (entry.row as int, entry.column as int);
                        crate::grid::lemma_lookup_entry(s, i as int);
                        assert(st.grid[(r, c)] == s[i as int].slot);
                    }
                    return true;
                }
            }
        }
        i = i + 1;
    }
    proof {
        if spill_blocks(st, *m) {
            let (r, c) = choose|r: int, c: int|
                #![trigger st.grid[(r, c)]]
                valid_position(r, c) && match spill_of(st.grid[(r, c)]) {
                    Some(sz) => r <= last_row(*m) && m.row <= r + sz.1 - 1 && c <= last_column(*m)
                        && m.column <= c + sz.0 - 1,
                    None => false,
                };
            if forall|j: int| 0 <= j < s.len() ==> !has_key(#[trigger] s[j], r, c) {
                crate::grid::lemma_lookup_absent(s, r, c);
                assert(st.grid[(r, c)] == lookup(s, r, c));
            } else {
                let j = choose|j: int| 0 <= j < s.len() && has_key(#[trigger] s[j], r, c);
                crate::grid::lemma_lookup_entry(s, j);
                assert(st.grid[(r, c)] == s[j].slot);
            }
        }
    }
    false
}

/// Whether some region of `existing` shares a cell with `m`.
pub(crate) fn overlaps_any(existing: &Vec<MergeCell>, m: &MergeCell) -> (r: bool)
    requires
        regions_wf(existing@),
        1 <= m.row && 1 <= m.column && 1 <= m.width && 1 <= m.height,
        last_row(*m) <= LAST_ROW && last_column(*m) <= LAST_COLUMN,
    ensures
        r == (exists|i: int| 0 <= i < existing@.len() && overlaps(#[trigger] existing@[i], *m)),
{
    let n = existing.len();
    let mut i: usize = 0;
    while i < n
        invariant
            n == existing@.len(),
            regions_wf(existing@),
            1 <= m.row && 1 <= m.column && 1 <= m.width && 1 <= m.height,
            last_row(*m) <= LAST_ROW && last_column(*m) <= LAST_COLUMN,
            i <= n,
            forall|j: int| 0 <= j < i ==> !overlaps(#[trigger] existing@[j], *m),
        decreases n - i,
    {
        assert(region_valid(existing@[i as int]));
        if regions_intersect(&existing[i], m) {
            return true;
        }
        i = i + 1;
    }
    false
}

impl Model {
    /// Merges the rectangle anchored at `(row, column)` spanning `width` columns
    /// and `height` rows into a single region.
    ///
    /// Validation runs before any mutation, so a rejected merge leaves the
    /// workbook untouched. In order: the sheet must exist, the rectangle must be
    /// in bounds, its dimensions must be non-degenerate (`width >= 1`,
    /// `height >= 1`, and not `1x1`), it must not overlap an existing region, and
    /// it must not cover an array-formula anchor or spill cell.
    ///
    /// On success the anchor value is kept while every covered cell has its
    /// content cleared (its style is preserved). The discarded content is
    /// returned row-major over the rectangle (the anchor slot is `None`) so the
    /// caller can build an undo entry.
    pub fn merge_cells(&mut self, sheet: u32, row: i32, column: i32, width: i32, height: i32) -> (r:
        Result<Vec<Vec<Option<Cell>>>, String>)
        requires
            old(self).wf(),
        ensures
            final(self).wf(),
            final(self).worksheets@.len() == old(self).worksheets@.len(),
            ({
                let m = MergeCell { row, column, width, height };
                match r {
                    Ok(old_covered) => {
                        &&& sheet < old(self).states().len()
                        &&& merge_error(old(self).states()[sheet as int], m) is None
                        &&& final(self).states() == old(self).states().update(
                            sheet as int,
                            merged(old(self).states()[sheet as int], m),
                        )
                        &&& rows_view(old_covered@) == covered_snapshot(old(self).states()[sheet as int], m)
                    },
                    Err(e) => {
                        &&& *final(self) == *old(self)
                        &&& if sheet < old(self).states().len() {
                            merge_error(old(self).states()[sheet as int], m) == Some(e@)
                        } else {
                            e@ == invalid_sheet_message()
                        }
                    },
                }
            }),
    {
        // Validation (no mutation until every check passes).
        let worksheet = self.worksheet(sheet)?;
        assert(worksheet.wf());
        let ghost st = worksheet.state();
        assert(st == old(self).states()[sheet as int]);
        // Bounds. Computed in i64 so extreme dimensions cannot overflow i32.
        let last_row = row as i64 + height as i64 - 1;
        let last_column = column as i64 + width as i64 - 1;
        if row < 1 || column < 1 || last_row > LAST_ROW as i64 || last_column > LAST_COLUMN as i64 {
            return Err(String::from_str("Merge range is out of bounds"));
        }
        // Degenerate dimensions.
        if width < 1 || height < 1 {
            return Err(String::from_str("Merge width and height must be at least 1"));
        }
        if width == 1 && height == 1 {
            return Err(String::from_str("Cannot merge a single cell"));
        }
        let new_region = MergeCell { row, column, width, height };
        // Overlap with an existing region.
        let existing = worksheet.merge_cells_parsed();
        if overlaps_any(&existing, &new_region) {
            proof {
                let i = choose|i: int| 0 <= i < existing@.len() && overlaps(#[trigger] existing@[i], new_region);
                assert(overlaps(st.merges[i], new_region));
            }
            return Err(String::from_str("Merge range overlaps an existing merged region"));
        }
        // Array-formula / spill collision: every stored formula that spills is
        // checked against the new region by the range it spills over.
        if array_formula_blocks(worksheet, &new_region) {
            return Err(String::from_str("Cannot merge cells that contain an array formula"));
        }
        // Mutation. Record the covered content (anchor excluded) before clearing.
        let old_covered = worksheet.covered_cells(new_region);
        let ghost before = self.worksheets@;
        self.worksheets[sheet as usize].apply_merge(new_region);
        proof {
            assert(self.worksheets@ == before.update(sheet as int, self.worksheets@[sheet as int]));
            assert(self.states() =~= old(self).states().update(sheet as int, merged(st, new_region)));
        }
        Ok(old_covered)
    }

    /// Removes the merged region containing `(row, column)` (anchor or any
    /// covered cell) and returns it. If the cell is not part of any region this
    /// is a no-op returning `Ok(None)`. Covered cells are already empty, so no
    /// content is synthesized.
    pub fn unmerge_cells(&mut self, sheet: u32, row: i32, column: i32) -> (r: Result<
        Option<MergeCell>,
        String,
    >)
        requires
            old(self).wf(),
        ensures
            final(self).wf(),
            final(self).worksheets@.len() == old(self).worksheets@.len(),
            match r {
                Ok(removed) => {
                    &&& sheet < old(self).states().len()
                    &&& removed == region_at(
                        old(self).states()[sheet as int].merges,
                        row as int,
                        column as int,
                    )
                    &&& final(self).states() == match removed {
                        Some(_) => old(self).states().update(
                            sheet as int,
                            unmerged(
                                old(self).states()[sheet as int],
                                region_index_at(old(self).states()[sheet as int].merges, row as int, column as int),
                            ),
                        ),
                        None => old(self).states(),
                    }
                },
                Err(e) => {
                    &&& sheet >= old(self).states().len()
                    &&& e@ == invalid_sheet_message()
                    &&& *final(self) == *old(self)
                },
            },
    {
        self.worksheet(sheet)?;
        let ghost before = self.worksheets@;
        let removed = self.worksheets[sheet as usize].remove_merge_at(row, column);
        proof {
            assert(self.worksheets@ == before.update(sheet as int, self.worksheets@[sheet as int]));
            match removed {
                Some(_) => {
                    assert(self.states() =~= old(self).states().update(
                        sheet as int,
                        unmerged(
                            old(self).states()[sheet as int],
                            region_index_at(old(self).states()[sheet as int].merges, row as int, column as int),
                        ),
                    ));
                },
                None => {
                    assert(self.states() =~= old(self).states());
                },
            }
        }
        Ok(removed)
    }

    /// Returns every merged region on `sheet`.
    pub fn get_merge_cells(&self, sheet: u32) -> (r: Result<Vec<MergeCell>, String>)
        ensures
            match r {
                Ok(v) => sheet < self.states().len() && v@ == self.states()[sheet as int].merges,
                Err(e) => sheet >= self.states().len() && e@ == invalid_sheet_message(),
            },
    {
        Ok(self.worksheet(sheet)?.merge_cells_parsed())
    }

    /// Returns the merged region covering `(row, column)` (anchor or covered),
    /// or `None` if the cell is not merged.
    pub fn get_merge_cell(&self, sheet: u32, row: i32, column: i32) -> (r: Result<
        Option<MergeCell>,
        String,
    >)
        requires
            self.wf(),
        ensures
            match r {
                Ok(v) => sheet < self.states().len() && v == region_at(
                    self.states()[sheet as int].merges,
                    row as int,
                    column as int,
                ),
                Err(e) => sheet >= self.states().len() && e@ == invalid_sheet_message(),
            },
    {
        let worksheet = self.worksheet(sheet)?;
        assert(worksheet.wf());
        Ok(worksheet.merge_at(row, column))
    }
}

} // verus!
