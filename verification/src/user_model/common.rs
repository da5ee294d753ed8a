//! The user model, its history bookkeeping, and writing typed input.
use vstd::prelude::*;

use crate::displace::edit_keeps_regions;
use crate::edit::{edit_ok, GridEdit};
use crate::model::{invalid_sheet_message, Model};
use crate::types::{
    default_slot, Area, Cell, CellContent, Font, Link, MergeCell, Slot, Style, LAST_COLUMN, LAST_ROW,
};
use crate::user_model::history::{diffs_state, diffs_wf, recorded_swap, Diff, UserState};
use crate::merge_cells::overlaps_existing;
use crate::worksheet::{covered_by_region, edited, in_array_formula, region_at, SheetState, Worksheet};

verus! {


/// `c` is what typing `v` into a cell stores: nothing for an empty input, a
/// formula for an input starting with `=`, the text as typed otherwise.
pub open spec fn content_of_input(c: CellContent, v: Seq<char>) -> bool {
    if v.len() == 0 {
        c == CellContent::Empty
    } else if v[0] == '=' {
        c matches CellContent::Formula(f) && f@ == v
    } else {
        c matches CellContent::Text(t) && t@ == v
    }
}

/// `v` starts with `p` and goes on past it.
pub open spec fn starts_with(v: Seq<char>, p: Seq<char>) -> bool {
    p.len() < v.len() && v.subrange(0, p.len() as int) == p
}

/// Input that reads as a web address: `http://` or `https://` followed by
/// more, with no space anywhere.
pub open spec fn is_url(v: Seq<char>) -> bool {
    &&& (starts_with(v, "http://"@) || starts_with(v, "https://"@))
    &&& forall|i: int| 0 <= i < v.len() ==> v[i] != ' '
}

/// The style with its font underlined.
pub open spec fn underlined(st: Style) -> Style {
    Style { font: Font { b: st.font.b, i: st.font.i, u: true, strike: st.font.strike } }
}

/// `s2` is slot `s` after typing `v`: the content is replaced. Input that
/// reads as a web address links the cell to it (a cell that had no link is
/// underlined too); otherwise the style is kept and the link dropped when the
/// cell is emptied.
pub open spec fn after_input(s: Slot, v: Seq<char>, s2: Slot) -> bool {
    &&& content_of_input(s2.cell.content, v)
    &&& if is_url(v) {
        &&& s2.link matches Some(Link::External { target, tooltip }) && target@ == v && tooltip is None
        &&& s2.cell.style == if s.link is None {
            underlined(s.cell.style)
        } else {
            s.cell.style
        }
    } else {
        &&& s2.cell.style == s.cell.style
        &&& s2.link == if v.len() == 0 {
            None
        } else {
            s.link
        }
    }
}

pub open spec fn invalid_row_message() -> Seq<char> {
    "Invalid row"@
}

pub open spec fn invalid_column_message() -> Seq<char> {
    "Invalid column"@
}

/// The refusal to write into a covered cell of `m`, naming its anchor.
pub open spec fn covered_cell_message(m: MergeCell) -> Seq<char> {
    "cannot edit a cell inside a merged region; edit the anchor at "@ + crate::names::cell_name(
        m.row as int,
        m.column as int,
    )
}

/// Why the cell `(row, column)` of `sheet` cannot be written, checked in order.
pub open spec fn write_error(u: UserState, sheet: int, row: int, column: int) -> Option<Seq<char>> {
    if sheet >= u.sheets.len() {
        Some(invalid_sheet_message())
    } else if !(1 <= row <= LAST_ROW) {
        Some(invalid_row_message())
    } else if !(1 <= column <= LAST_COLUMN) {
        Some(invalid_column_message())
    } else if covered_by_region(u.sheets[sheet].merges, row, column) {
        Some(covered_cell_message(region_at(u.sheets[sheet].merges, row, column).unwrap()))
    } else {
        None
    }
}

pub open spec fn array_cell_message() -> Seq<char> {
    "Cannot change part of an array formula"@
}

/// Why typed input cannot go into the cell `(row, column)` of `sheet`,
/// checked in order: it must be writable and not part of an array formula.
pub open spec fn input_error(u: UserState, sheet: int, row: int, column: int) -> Option<Seq<char>> {
    match write_error(u, sheet, row, column) {
        Some(msg) => Some(msg),
        None => if in_array_formula(u.sheets[sheet], row, column) {
            Some(array_cell_message())
        } else {
            None
        },
    }
}

/// `s2` is slot `s` holding the array formula `f` over `width` by `height`
/// cells; style and link stay.
pub open spec fn with_array_formula(s: Slot, f: Seq<char>, width: i32, height: i32, s2: Slot) -> bool {
    &&& s2.cell.content matches CellContent::ArrayFormula { formula, width: w, height: h } && formula@ == f
        && w == width && h == height
    &&& s2.cell.style == s.cell.style
    &&& s2.link == s.link
}

/// The sheet with the content of every cell of `a` but the top-left one cleared.
pub open spec fn cleared_for_array(st: SheetState, a: Area) -> SheetState {
    edited(st, GridEdit::ClearCovered { region: area_rect(a) })
}

/// Why the array formula `f` cannot be entered over `a`, checked in order.
pub open spec fn array_formula_error(u: UserState, a: Area, f: Seq<char>) -> Option<Seq<char>> {
    match area_error(u, a) {
        Some(msg) => Some(msg),
        None => if f.len() == 0 || f[0] != '=' {
            Some("An array formula must start with ="@)
        } else if overlaps_existing(u.sheets[a.sheet as int], area_rect(a)) {
            Some("Cannot enter an array formula over merged cells"@)
        } else {
            None
        },
    }
}

/// Why the cell `(row, column)` of `sheet` cannot be addressed, checked in order.
pub open spec fn position_error(u: UserState, sheet: int, row: int, column: int) -> Option<Seq<char>> {
    if sheet >= u.sheets.len() {
        Some(invalid_sheet_message())
    } else if !(1 <= row <= LAST_ROW) {
        Some(invalid_row_message())
    } else if !(1 <= column <= LAST_COLUMN) {
        Some(invalid_column_message())
    } else {
        None
    }
}

/// The rectangle of an area.
pub open spec fn area_rect(a: Area) -> MergeCell {
    MergeCell { row: a.row, column: a.column, width: a.width, height: a.height }
}

/// An area of at least one cell inside the sheet.
pub open spec fn area_valid(a: Area) -> bool {
    &&& 1 <= a.row
    &&& 1 <= a.column
    &&& 1 <= a.width
    &&& 1 <= a.height
    &&& a.row + a.height - 1 <= LAST_ROW
    &&& a.column + a.width - 1 <= LAST_COLUMN
}

pub open spec fn invalid_area_message() -> Seq<char> {
    "Invalid area"@
}

/// Why `area` cannot be addressed, checked in order.
pub open spec fn area_error(u: UserState, a: Area) -> Option<Seq<char>> {
    if a.sheet >= u.sheets.len() {
        Some(invalid_sheet_message())
    } else if !area_valid(a) {
        Some(invalid_area_message())
    } else {
        None
    }
}

/// A workbook together with its undo and redo history.
#[derive(Debug)]
pub struct UserModel {
    pub model: Model,
    pub undo_stack: Vec<Diff>,
    pub redo_stack: Vec<Diff>,
}

impl UserModel {
    pub open spec fn state(&self) -> UserState {
        UserState {
            sheets: self.model.states(),
            undo: diffs_state(self.undo_stack@),
            redo: diffs_state(self.redo_stack@),
        }
    }

    /// The workbook is well formed and every history entry fits it.
    pub open spec fn wf(&self) -> bool {
        &&& self.model.wf()
        &&& diffs_wf(self.undo_stack@, self.model.worksheets@.len() as int)
        &&& diffs_wf(self.redo_stack@, self.model.worksheets@.len() as int)
    }

    /// A model with one empty sheet and no history.
    pub fn new_empty() -> (u: UserModel)
        ensures
            u.wf(),
            u.state().sheets.len() == 1,
            u.state().sheets[0].merges == Seq::<MergeCell>::empty(),
            forall|k: (int, int)| #[trigger] u.state().sheets[0].grid[k] == default_slot(),
            u.state().undo == Seq::<crate::user_model::history::DiffState>::empty(),
            u.state().redo == Seq::<crate::user_model::history::DiffState>::empty(),
    {
        let u = UserModel { model: Model::new_empty(), undo_stack: Vec::new(), redo_stack: Vec::new() };
        proof {
            assert(u.state().undo =~= Seq::<crate::user_model::history::DiffState>::empty());
            assert(u.state().redo =~= Seq::<crate::user_model::history::DiffState>::empty());
        }
        u
    }

    /// Records `d` as the latest change; the redo history is dropped.
    pub(crate) fn push_diff(&mut self, d: Diff)
        requires
            old(self).wf(),
            d.wf(old(self).model.worksheets@.len() as int),
        ensures
            final(self).wf(),
            final(self).model == old(self).model,
            final(self).state() == (UserState {
                sheets: old(self).state().sheets,
                undo: old(self).state().undo.push(d.state()),
                redo: Seq::empty(),
            }),
    {
        let ghost before = self.undo_stack@;
        self.undo_stack.push(d);
        self.redo_stack = Vec::new();
        proof {
            assert(diffs_state(self.undo_stack@) =~= diffs_state(before).push(d.state()));
            assert(diffs_state(self.redo_stack@) =~= Seq::empty());
            assert forall|i: int| 0 <= i < self.undo_stack@.len() implies (#[trigger] self.undo_stack@[i]).wf(
                self.model.worksheets@.len() as int,
            ) by {
                if i < before.len() {
                    assert(self.undo_stack@[i] == before[i]);
                }
            }
        }
    }

    /// Whether there is a change to undo.
    pub fn can_undo(&self) -> (r: bool)
        ensures
            r == (self.state().undo.len() > 0),
    {
        self.undo_stack.len() > 0
    }

    /// Whether there is an undone change to redo.
    pub fn can_redo(&self) -> (r: bool)
        ensures
            r == (self.state().redo.len() > 0),
    {
        self.redo_stack.len() > 0
    }

    /// Puts `ws` in place of sheet `sheet` and records the change.
    pub(crate) fn replace_sheet(&mut self, sheet: u32, ws: Worksheet)
        requires
            old(self).wf(),
            sheet < old(self).model.worksheets@.len(),
            ws.wf(),
        ensures
            final(self).wf(),
            final(self).state() == recorded_swap(old(self).state(), sheet as int, ws.state()),
    {
        let ghost before = self.model.worksheets@;
        let ghost u = self.state();
        let mut ws = ws;
        std::mem::swap(&mut self.model.worksheets[sheet as usize], &mut ws);
        proof {
            assert(self.model.states() =~= u.sheets.update(sheet as int, self.model.worksheets@[sheet as int].state()));
            assert(self.model.worksheets@.len() == before.len());
            assert(self.model.wf());
            assert forall|i: int| 0 <= i < self.undo_stack@.len() implies (#[trigger] self.undo_stack@[i]).wf(
                self.model.worksheets@.len() as int,
            ) by {}
            assert forall|i: int| 0 <= i < self.redo_stack@.len() implies (#[trigger] self.redo_stack@[i]).wf(
                self.model.worksheets@.len() as int,
            ) by {}
        }
        self.push_diff(Diff::SwapSheet { sheet, other: ws });
    }
}

/// Whether `v` starts with `p` and goes on past it.
fn has_prefix(v: &str, p: &str) -> (r: bool)
    ensures
        r == starts_with(v@, p@),
{
    let n = v.unicode_len();
    let m = p.unicode_len();
    if m >= n {
        return false;
    }
    let mut i: usize = 0;
    while i < m
        invariant
            i <= m < n,
            n == v@.len(),
            m == p@.len(),
            forall|j: int| 0 <= j < i ==> v@[j] == p@[j],
        decreases m - i,
    {
        if v.get_char(i) != p.get_char(i) {
            assert(v@.subrange(0, m as int)[i as int] != p@[i as int]);
            return false;
        }
        i = i + 1;
    }
    assert(v@.subrange(0, m as int) =~= p@);
    true
}

/// Whether input `v` reads as a web address (exec form of `is_url`).
pub fn looks_like_url(v: &str) -> (r: bool)
    ensures
        r == is_url(v@),
{
    if !(has_prefix(v, "http://") || has_prefix(v, "https://")) {
        return false;
    }
    let n = v.unicode_len();
    let mut i: usize = 0;
    while i < n
        invariant
            i <= n,
            n == v@.len(),
            forall|j: int| 0 <= j < i ==> v@[j] != ' ',
        decreases n - i,
    {
        if v.get_char(i) == ' ' {
            return false;
        }
        i = i + 1;
    }
    true
}

/// What typing `v` stores (exec form of `content_of_input`).
pub fn content_from_input(v: &str) -> (c: CellContent)
    ensures
        content_of_input(c, v@),
{
    if v.is_empty() {
        CellContent::Empty
    } else if v.get_char(0) == '=' {
        CellContent::Formula(v.to_owned())
    } else {
        CellContent::Text(v.to_owned())
    }
}

impl UserModel {
    /// Checks that `(row, column)` of `sheet` can be addressed.
    pub(crate) fn check_position(&self, sheet: u32, row: i32, column: i32) -> (r: Result<(), String>)
        requires
            self.wf(),
        ensures
            match position_error(self.state(), sheet as int, row as int, column as int) {
                Some(msg) => r matches Err(e) && e@ == msg,
                None => r is Ok,
            },
    {
        self.model.worksheet(sheet)?;
        if row < 1 || row > LAST_ROW {
            return Err(String::from_str("Invalid row"));
        }
        if column < 1 || column > LAST_COLUMN {
            return Err(String::from_str("Invalid column"));
        }
        Ok(())
    }

    /// Checks that `(row, column)` of `sheet` can be written: it must be
    /// addressable and not a covered cell of a merged region.
    pub(crate) fn check_writable(&self, sheet: u32, row: i32, column: i32) -> (r: Result<(), String>)
        requires
            self.wf(),
        ensures
            match write_error(self.state(), sheet as int, row as int, column as int) {
                Some(msg) => r matches Err(e) && e@ == msg,
                None => r is Ok,
            },
    {
        self.check_position(sheet, row, column)?;
        let worksheet = &self.model.worksheets[sheet as usize];
        assert(worksheet.wf());
        proof {
            crate::worksheet::lemma_covered_iff(worksheet.merge_cells@, row as int, column as int);
        }
        if let Some(m) = worksheet.merge_at(row, column) {
            if !(m.row == row && m.column == column) {
                assert(crate::geometry::region_valid(m)) by {
                    let ms = worksheet.merge_cells@;
                    let k = crate::worksheet::region_index_at(ms, row as int, column as int);
                    assert(crate::geometry::region_valid(ms[k]));
                }
                let mut message = String::from_str("cannot edit a cell inside a merged region; edit the anchor at ");
                let name = crate::names::cell_name_of(m.row as u32, m.column as u32);
                message.append(name.as_str());
                return Err(message);
            }
        }
        Ok(())
    }

    /// Writes `value` into the cell as typed: an empty value clears the
    /// content (and drops the link), a value starting with `=` is a formula,
    /// anything else is stored as text. A value that reads as a web address
    /// links the cell to it, and underlines a cell that had no link; otherwise
    /// the style is kept. A covered cell of a merged region cannot be written,
    /// nor any cell of an array formula. Undoable.
    pub fn set_user_input(&mut self, sheet: u32, row: i32, column: i32, value: &str) -> (r: Result<
        (),
        String,
    >)
        requires
            old(self).wf(),
        ensures
            final(self).wf(),
            ({
                let u = old(self).state();
                let k = (row as int, column as int);
                match input_error(u, sheet as int, row as int, column as int) {
                    Some(msg) => r matches Err(e) && e@ == msg && final(self).state() == u,
                    None => r is Ok && exists|s2: Slot|
                        #[trigger] after_input(u.sheets[sheet as int].grid[k], value@, s2)
                            && final(self).state() == recorded_swap(
                            u,
                            sheet as int,
                            SheetState {
                                grid: u.sheets[sheet as int].grid.insert(k, s2),
                                merges: u.sheets[sheet as int].merges,
                            },
                        ),
                }
            }),
    {
        self.check_writable(sheet, row, column)?;
        let worksheet = &self.model.worksheets[sheet as usize];
        assert(worksheet.wf());
        if worksheet.in_array_formula(row, column) {
            return Err(String::from_str("Cannot change part of an array formula"));
        }
        let slot = worksheet.slot(row, column);
        let content = content_from_input(value);
        let new_slot = if looks_like_url(value) {
            let style = if slot.link.is_none() {
                let f = slot.cell.style.font;
                Style { font: Font { b: f.b, i: f.i, u: true, strike: f.strike } }
            } else {
                slot.cell.style
            };
            let link = Link::External { target: value.to_owned(), tooltip: None };
            Slot { cell: Cell { content, style }, link: Some(link) }
        } else {
            let link = if value.is_empty() {
                None
            } else {
                slot.link
            };
            Slot { cell: Cell { content, style: slot.cell.style }, link }
        };
        let ghost s2 = new_slot;
        let mut ws = worksheet.duplicate();
        ws.set_slot(row, column, new_slot);
        self.replace_sheet(sheet, ws);
        proof {
            assert(after_input(old(self).state().sheets[sheet as int].grid[(row as int, column as int)], value@, s2));
        }
        Ok(())
    }
}

impl UserModel {
    /// Enters the formula `formula` over the whole of `area` at once, as an
    /// array formula kept in the top-left cell; the other cells of the area
    /// lose their content (styles and links stay). It cannot be entered over
    /// merged cells, a merge cannot be made over it, and typed input cannot
    /// change any of its cells. Undoable.
    pub fn set_user_array_formula(&mut self, area: &Area, formula: &str) -> (r: Result<(), String>)
        requires
            old(self).wf(),
        ensures
            final(self).wf(),
            ({
                let u = old(self).state();
                let k = (area.row as int, area.column as int);
                match array_formula_error(u, *area, formula@) {
                    Some(msg) => r matches Err(e) && e@ == msg && final(self).state() == u,
                    None => r is Ok && exists|s2: Slot|
                        #[trigger] with_array_formula(
                            cleared_for_array(u.sheets[area.sheet as int], *area).grid[k],
                            formula@,
                            area.width,
                            area.height,
                            s2,
                        ) && final(self).state() == recorded_swap(
                            u,
                            area.sheet as int,
                            SheetState {
                                grid: cleared_for_array(u.sheets[area.sheet as int], *area).grid.insert(k, s2),
                                merges: cleared_for_array(u.sheets[area.sheet as int], *area).merges,
                            },
                        ),
                }
            }),
    {
        self.check_area(area)?;
        if formula.unicode_len() == 0 || formula.get_char(0) != '=' {
            return Err(String::from_str("An array formula must start with ="));
        }
        let sheet = area.sheet;
        let worksheet = &self.model.worksheets[sheet as usize];
        assert(worksheet.wf());
        let rect = MergeCell { row: area.row, column: area.column, width: area.width, height: area.height };
        if crate::merge_cells::overlaps_any(&worksheet.merge_cells, &rect) {
            return Err(String::from_str("Cannot enter an array formula over merged cells"));
        }
        let e = GridEdit::ClearCovered { region: rect };
        let mut ws = worksheet.with_edit(&e);
        proof {
            let ms = worksheet.merge_cells@;
            crate::displace::lemma_displaced_origin(ms, e);
            if covered_by_region(ws.merge_cells@, area.row as int, area.column as int) {
                let i = choose|i: int|
                    0 <= i < ws.merge_cells@.len() && crate::geometry::covers(
                        #[trigger] ws.merge_cells@[i],
                        area.row as int,
                        area.column as int,
                    );
                let j = choose|j: int|
                    0 <= j < ms.len() && crate::displace::displaced_region(e, ms[j]) == Some(
                        ws.merge_cells@[i],
                    );
                assert(crate::geometry::overlaps(ms[j], rect));
            }
        }
        let slot = ws.slot(area.row, area.column);
        let new_slot = Slot {
            cell: Cell {
                content: CellContent::ArrayFormula {
                    formula: formula.to_owned(),
                    width: area.width,
                    height: area.height,
                },
                style: slot.cell.style,
            },
            link: slot.link,
        };
        let ghost s2 = new_slot;
        ws.set_slot(area.row, area.column, new_slot);
        self.replace_sheet(sheet, ws);
        proof {
            let st1 = cleared_for_array(old(self).state().sheets[sheet as int], *area);
            assert(with_array_formula(st1.grid[(area.row as int, area.column as int)], formula@, area.width, area.height, s2));
        }
        Ok(())
    }
}

impl UserModel {
    /// Checks that `area` can be addressed.
    pub(crate) fn check_area(&self, area: &Area) -> (r: Result<(), String>)
        requires
            self.wf(),
        ensures
            match area_error(self.state(), *area) {
                Some(msg) => r matches Err(e) && e@ == msg,
                None => r is Ok,
            },
    {
        self.model.worksheet(area.sheet)?;
        let last_row = area.row as i64 + area.height as i64 - 1;
        let last_column = area.column as i64 + area.width as i64 - 1;
        if area.row < 1 || area.column < 1 || area.width < 1 || area.height < 1 || last_row > LAST_ROW as i64
            || last_column > LAST_COLUMN as i64 {
            return Err(String::from_str("Invalid area"));
        }
        Ok(())
    }

    /// Applies a whole-grid edit to sheet `sheet` and records it.
    pub(crate) fn edit_sheet(&mut self, sheet: u32, e: &GridEdit)
        requires
            old(self).wf(),
            sheet < old(self).model.worksheets@.len(),
            edit_ok(*e),
            edit_keeps_regions(*e, old(self).state().sheets[sheet as int].merges),
        ensures
            final(self).wf(),
            final(self).state() == recorded_swap(
                old(self).state(),
                sheet as int,
                edited(old(self).state().sheets[sheet as int], *e),
            ),
    {
        let worksheet = &self.model.worksheets[sheet as usize];
        assert(worksheet.wf());
        let ws = worksheet.with_edit(e);
        self.replace_sheet(sheet, ws);
    }

}

} // verus!
