//! Clearing ranges, and deleting or moving rows and columns.
use vstd::prelude::*;

use crate::displace::{edit_keeps_regions, keeps_regions};
use crate::edit::{edit_ok, Axis, GridEdit};
use crate::model::invalid_sheet_message;
use crate::types::{Area, MergeCell, LAST_COLUMN, LAST_ROW};
use crate::user_model::common::{area_error, area_rect, UserModel};
use crate::user_model::history::{recorded_swap, UserState};
use crate::user_model::common::array_cell_message;
use crate::worksheet::{edit_breaks_array, edited, insert_loses_cells};

verus! {

pub open spec fn range_message(axis: Axis) -> Seq<char> {
    match axis {
        Axis::Rows => "Invalid row range"@,
        Axis::Columns => "Invalid column range"@,
    }
}

pub open spec fn split_message(axis: Axis) -> Seq<char> {
    match axis {
        Axis::Rows => "Cannot move rows because that would split a merged cell"@,
        Axis::Columns => "Cannot move columns because that would split a merged cell"@,
    }
}

pub open spec fn shift_message(axis: Axis) -> Seq<char> {
    match axis {
        Axis::Rows => "Cannot shift cells because that would delete cells at the end of a column"@,
        Axis::Columns => "Cannot shift cells because that would delete cells at the end of a row"@,
    }
}

/// Why `count` lines cannot be inserted before line `start`, checked in order.
pub open spec fn insert_error(u: UserState, sheet: int, axis: Axis, start: int, count: int) -> Option<Seq<char>> {
    let e = GridEdit::Insert { axis, start: start as i32, count: count as i32 };
    if sheet >= u.sheets.len() {
        Some(invalid_sheet_message())
    } else if !edit_ok(e) {
        Some(range_message(axis))
    } else if insert_loses_cells(u.sheets[sheet], axis, start, count) || !edit_keeps_regions(
        e,
        u.sheets[sheet].merges,
    ) {
        Some(shift_message(axis))
    } else if edit_breaks_array(u.sheets[sheet], e) {
        Some(array_cell_message())
    } else {
        None
    }
}

/// Why the lines cannot be deleted, checked in order.
pub open spec fn delete_error(u: UserState, sheet: int, axis: Axis, start: int, count: int) -> Option<Seq<char>> {
    if sheet >= u.sheets.len() {
        Some(invalid_sheet_message())
    } else if !edit_ok(GridEdit::Delete { axis, start: start as i32, count: count as i32 }) {
        Some(range_message(axis))
    } else if edit_breaks_array(
        u.sheets[sheet],
        GridEdit::Delete { axis, start: start as i32, count: count as i32 },
    ) {
        Some(array_cell_message())
    } else {
        None
    }
}

/// Why the block of lines cannot be moved, checked in order.
pub open spec fn move_error(u: UserState, sheet: int, e: GridEdit) -> Option<Seq<char>> {
    match e {
        GridEdit::Move { axis, start, count, delta } => if sheet >= u.sheets.len() {
            Some(invalid_sheet_message())
        } else if !edit_ok(e) {
            Some(range_message(axis))
        } else if !edit_keeps_regions(e, u.sheets[sheet].merges) {
            Some(split_message(axis))
        } else if edit_breaks_array(u.sheets[sheet], e) {
            Some(array_cell_message())
        } else {
            None
        },
        _ => None,
    }
}

impl UserModel {
    /// Clears the content and links of every cell of `area`; styles and
    /// merged regions stay. Undoable.
    pub fn range_clear_contents(&mut self, area: &Area) -> (r: Result<(), String>)
        requires
            old(self).wf(),
        ensures
            final(self).wf(),
            ({
                let u = old(self).state();
                match area_error(u, *area) {
                    Some(msg) => r matches Err(e) && e@ == msg && final(self).state() == u,
                    None => r is Ok && final(self).state() == recorded_swap(
                        u,
                        area.sheet as int,
                        edited(u.sheets[area.sheet as int], GridEdit::ClearContents { area: area_rect(*area) }),
                    ),
                }
            }),
    {
        self.check_area(area)?;
        let e = GridEdit::ClearContents {
            area: MergeCell { row: area.row, column: area.column, width: area.width, height: area.height },
        };
        self.edit_sheet(area.sheet, &e);
        Ok(())
    }

    /// Resets every cell of `area` (content, style and link) and unmerges
    /// every merged region that lies entirely inside it; regions only partly
    /// inside stay. Undoable as one step.
    pub fn range_clear_all(&mut self, area: &Area) -> (r: Result<(), String>)
        requires
            old(self).wf(),
        ensures
            final(self).wf(),
            ({
                let u = old(self).state();
                match area_error(u, *area) {
                    Some(msg) => r matches Err(e) && e@ == msg && final(self).state() == u,
                    None => r is Ok && final(self).state() == recorded_swap(
                        u,
                        area.sheet as int,
                        edited(u.sheets[area.sheet as int], GridEdit::ClearAll { area: area_rect(*area) }),
                    ),
                }
            }),
    {
        self.check_area(area)?;
        let e = GridEdit::ClearAll {
            area: MergeCell { row: area.row, column: area.column, width: area.width, height: area.height },
        };
        self.edit_sheet(area.sheet, &e);
        Ok(())
    }

    /// Deletes `count` lines starting at `start` along `axis`.
    fn delete_lines(&mut self, sheet: u32, axis: Axis, start: i32, count: i32) -> (r: Result<(), String>)
        requires
            old(self).wf(),
        ensures
            final(self).wf(),
            ({
                let u = old(self).state();
                match delete_error(u, sheet as int, axis, start as int, count as int) {
                    Some(msg) => r matches Err(e) && e@ == msg && final(self).state() == u,
                    None => r is Ok && final(self).state() == recorded_swap(
                        u,
                        sheet as int,
                        edited(u.sheets[sheet as int], GridEdit::Delete { axis, start, count }),
                    ),
                }
            }),
    {
        self.model.worksheet(sheet)?;
        let last = match axis {
            Axis::Rows => LAST_ROW,
            Axis::Columns => LAST_COLUMN,
        };
        if start < 1 || count < 1 || start as i64 + count as i64 - 1 > last as i64 {
            return Err(
                match axis {
                    Axis::Rows => String::from_str("Invalid row range"),
                    Axis::Columns => String::from_str("Invalid column range"),
                },
            );
        }
        let e = GridEdit::Delete { axis, start, count };
        let worksheet = &self.model.worksheets[sheet as usize];
        assert(worksheet.wf());
        if worksheet.edit_breaks_array(&e) {
            return Err(String::from_str("Cannot change part of an array formula"));
        }
        self.edit_sheet(sheet, &e);
        Ok(())
    }

    /// Inserts `count` blank lines before line `start` along `axis`.
    fn insert_lines(&mut self, sheet: u32, axis: Axis, start: i32, count: i32) -> (r: Result<(), String>)
        requires
            old(self).wf(),
        ensures
            final(self).wf(),
            ({
                let u = old(self).state();
                match insert_error(u, sheet as int, axis, start as int, count as int) {
                    Some(msg) => r matches Err(e) && e@ == msg && final(self).state() == u,
                    None => r is Ok && final(self).state() == recorded_swap(
                        u,
                        sheet as int,
                        edited(u.sheets[sheet as int], GridEdit::Insert { axis, start, count }),
                    ),
                }
            }),
    {
        self.model.worksheet(sheet)?;
        let last = match axis {
            Axis::Rows => LAST_ROW,
            Axis::Columns => LAST_COLUMN,
        };
        if start < 1 || start > last || count < 1 || count > last {
            return Err(
                match axis {
                    Axis::Rows => String::from_str("Invalid row range"),
                    Axis::Columns => String::from_str("Invalid column range"),
                },
            );
        }
        let e = GridEdit::Insert { axis, start, count };
        let worksheet = &self.model.worksheets[sheet as usize];
        assert(worksheet.wf());
        if worksheet.insert_loses_cells(axis, start, count) || !keeps_regions(&e, &worksheet.merge_cells) {
            return Err(
                match axis {
                    Axis::Rows => String::from_str(
                        "Cannot shift cells because that would delete cells at the end of a column",
                    ),
                    Axis::Columns => String::from_str(
                        "Cannot shift cells because that would delete cells at the end of a row",
                    ),
                },
            );
        }
        if worksheet.edit_breaks_array(&e) {
            return Err(String::from_str("Cannot change part of an array formula"));
        }
        self.edit_sheet(sheet, &e);
        Ok(())
    }

    /// Inserts `count` blank rows before `row`; the rows from `row` on move
    /// down. A merged region below moves down with its rows, and one that
    /// the inserted rows cut through grows by them. Refused when something
    /// would be pushed past the last row, or the rows would cut through an
    /// array formula. Undoable.
    pub fn insert_rows(&mut self, sheet: u32, row: i32, count: i32) -> (r: Result<(), String>)
        requires
            old(self).wf(),
        ensures
            final(self).wf(),
            ({
                let u = old(self).state();
                match insert_error(u, sheet as int, Axis::Rows, row as int, count as int) {
                    Some(msg) => r matches Err(e) && e@ == msg && final(self).state() == u,
                    None => r is Ok && final(self).state() == recorded_swap(
                        u,
                        sheet as int,
                        edited(u.sheets[sheet as int], GridEdit::Insert { axis: Axis::Rows, start: row, count }),
                    ),
                }
            }),
    {
        self.insert_lines(sheet, Axis::Rows, row, count)
    }

    /// Inserts `count` blank columns before `column`; the columns from
    /// `column` on move right. A merged region to the right moves with its
    /// columns, and one that the inserted columns cut through grows by them.
    /// Refused when something would be pushed past the last column, or the
    /// columns would cut through an array formula. Undoable.
    pub fn insert_columns(&mut self, sheet: u32, column: i32, count: i32) -> (r: Result<(), String>)
        requires
            old(self).wf(),
        ensures
            final(self).wf(),
            ({
                let u = old(self).state();
                match insert_error(u, sheet as int, Axis::Columns, column as int, count as int) {
                    Some(msg) => r matches Err(e) && e@ == msg && final(self).state() == u,
                    None => r is Ok && final(self).state() == recorded_swap(
                        u,
                        sheet as int,
                        edited(
                            u.sheets[sheet as int],
                            GridEdit::Insert { axis: Axis::Columns, start: column, count },
                        ),
                    ),
                }
            }),
    {
        self.insert_lines(sheet, Axis::Columns, column, count)
    }

    /// Moves `count` lines starting at `start` along `axis` by `delta`.
    fn move_lines(&mut self, sheet: u32, axis: Axis, start: i32, count: i32, delta: i32) -> (r: Result<
        (),
        String,
    >)
        requires
            old(self).wf(),
        ensures
            final(self).wf(),
            ({
                let u = old(self).state();
                let e = GridEdit::Move { axis, start, count, delta };
                match move_error(u, sheet as int, e) {
                    Some(msg) => r matches Err(x) && x@ == msg && final(self).state() == u,
                    None => r is Ok && final(self).state() == recorded_swap(
                        u,
                        sheet as int,
                        edited(u.sheets[sheet as int], e),
                    ),
                }
            }),
    {
        self.model.worksheet(sheet)?;
        let last = match axis {
            Axis::Rows => LAST_ROW,
            Axis::Columns => LAST_COLUMN,
        } as i64;
        let (s, n, d) = (start as i64, count as i64, delta as i64);
        if s < 1 || n < 1 || s + n - 1 > last || s + d < 1 || s + n - 1 + d > last {
            return Err(
                match axis {
                    Axis::Rows => String::from_str("Invalid row range"),
                    Axis::Columns => String::from_str("Invalid column range"),
                },
            );
        }
        let e = GridEdit::Move { axis, start, count, delta };
        let worksheet = &self.model.worksheets[sheet as usize];
        assert(worksheet.wf());
        if !keeps_regions(&e, &worksheet.merge_cells) {
            return Err(
                match axis {
                    Axis::Rows => String::from_str("Cannot move rows because that would split a merged cell"),
                    Axis::Columns => String::from_str(
                        "Cannot move columns because that would split a merged cell",
                    ),
                },
            );
        }
        if worksheet.edit_breaks_array(&e) {
            return Err(String::from_str("Cannot change part of an array formula"));
        }
        self.edit_sheet(sheet, &e);
        Ok(())
    }

    /// Deletes `count` rows starting at `row`; rows below move up. Merged
    /// regions shift or shrink with them, and are dropped when deleted whole
    /// or reduced to a single cell. Deleting part of an array formula is
    /// refused. Undoable.
    pub fn delete_rows(&mut self, sheet: u32, row: i32, count: i32) -> (r: Result<(), String>)
        requires
            old(self).wf(),
        ensures
            final(self).wf(),
            ({
                let u = old(self).state();
                match delete_error(u, sheet as int, Axis::Rows, row as int, count as int) {
                    Some(msg) => r matches Err(e) && e@ == msg && final(self).state() == u,
                    None => r is Ok && final(self).state() == recorded_swap(
                        u,
                        sheet as int,
                        edited(u.sheets[sheet as int], GridEdit::Delete { axis: Axis::Rows, start: row, count }),
                    ),
                }
            }),
    {
        self.delete_lines(sheet, Axis::Rows, row, count)
    }

    /// Deletes `count` columns starting at `column`; columns to the right move
    /// left. Merged regions shift or shrink with them, and are dropped when
    /// deleted whole or reduced to a single cell. Deleting part of an array
    /// formula is refused. Undoable.
    pub fn delete_columns(&mut self, sheet: u32, column: i32, count: i32) -> (r: Result<(), String>)
        requires
            old(self).wf(),
        ensures
            final(self).wf(),
            ({
                let u = old(self).state();
                match delete_error(u, sheet as int, Axis::Columns, column as int, count as int) {
                    Some(msg) => r matches Err(e) && e@ == msg && final(self).state() == u,
                    None => r is Ok && final(self).state() == recorded_swap(
                        u,
                        sheet as int,
                        edited(
                            u.sheets[sheet as int],
                            GridEdit::Delete { axis: Axis::Columns, start: column, count },
                        ),
                    ),
                }
            }),
    {
        self.delete_lines(sheet, Axis::Columns, column, count)
    }

    /// Moves the `count` rows starting at `row` by `delta` rows; the rows
    /// passed over shift the other way. Merged regions move with their rows;
    /// a move that would split a region or an array formula is refused.
    /// Undoable.
    pub fn move_rows_action(&mut self, sheet: u32, row: i32, count: i32, delta: i32) -> (r: Result<
        (),
        String,
    >)
        requires
            old(self).wf(),
        ensures
            final(self).wf(),
            ({
                let u = old(self).state();
                let e = GridEdit::Move { axis: Axis::Rows, start: row, count, delta };
                match move_error(u, sheet as int, e) {
                    Some(msg) => r matches Err(x) && x@ == msg && final(self).state() == u,
                    None => r is Ok && final(self).state() == recorded_swap(
                        u,
                        sheet as int,
                        edited(u.sheets[sheet as int], e),
                    ),
                }
            }),
    {
        self.move_lines(sheet, Axis::Rows, row, count, delta)
    }

    /// Moves the `count` columns starting at `column` by `delta` columns; the
    /// columns passed over shift the other way. Merged regions move with their
    /// columns; a move that would split a region or an array formula is
    /// refused. Undoable.
    pub fn move_columns_action(&mut self, sheet: u32, column: i32, count: i32, delta: i32) -> (r:
        Result<(), String>)
        requires
            old(self).wf(),
        ensures
            final(self).wf(),
            ({
                let u = old(self).state();
                let e = GridEdit::Move { axis: Axis::Columns, start: column, count, delta };
                match move_error(u, sheet as int, e) {
                    Some(msg) => r matches Err(x) && x@ == msg && final(self).state() == u,
                    None => r is Ok && final(self).state() == recorded_swap(
                        u,
                        sheet as int,
                        edited(u.sheets[sheet as int], e),
                    ),
                }
            }),
    {
        self.move_lines(sheet, Axis::Columns, column, count, delta)
    }
}

} // verus!
