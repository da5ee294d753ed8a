//! Links, styles, and reading cells.
use vstd::prelude::*;

use crate::eval::{find_spill, read_value, shown_value, value_to_text, SpillSearch, EVAL_DEPTH};
use crate::geometry::contains;
use crate::model::invalid_sheet_message;
use crate::types::{Area, Cell, CellContent, Font, Link, MergeCell, Slot, Style};
use crate::user_model::common::{
    area_error, area_rect, area_valid, content_from_input, content_of_input, position_error, write_error,
    UserModel,
};
use crate::user_model::history::{recorded_swap, UserState};
use crate::worksheet::{covered_by_region, SheetState};

verus! {

/// `st` with the font flag named by `path` set to `on`; `None` for an unknown path.
pub open spec fn style_with(st: Style, path: Seq<char>, on: bool) -> Option<Style> {
    let f = st.font;
    if path == "font.b"@ {
        Some(Style { font: Font { b: on, i: f.i, u: f.u, strike: f.strike } })
    } else if path == "font.i"@ {
        Some(Style { font: Font { b: f.b, i: on, u: f.u, strike: f.strike } })
    } else if path == "font.u"@ {
        Some(Style { font: Font { b: f.b, i: f.i, u: on, strike: f.strike } })
    } else if path == "font.strike"@ {
        Some(Style { font: Font { b: f.b, i: f.i, u: f.u, strike: on } })
    } else {
        None
    }
}

/// The boolean spelled by `v`.
pub open spec fn flag_value(v: Seq<char>) -> Option<bool> {
    if v == "true"@ {
        Some(true)
    } else if v == "false"@ {
        Some(false)
    } else {
        None
    }
}

/// The grid after the font flag is set on every cell of `rect`.
pub open spec fn styled_grid(g: Map<(int, int), Slot>, rect: MergeCell, path: Seq<char>, on: bool) -> Map<
    (int, int),
    Slot,
> {
    Map::new(
        |k: (int, int)| true,
        |k: (int, int)|
            if contains(rect, k.0, k.1) {
                Slot {
                    cell: Cell { content: g[k].cell.content, style: style_with(g[k].cell.style, path, on).unwrap() },
                    link: g[k].link,
                }
            } else {
                g[k]
            },
    )
}

pub open spec fn invalid_style_message() -> Seq<char> {
    "Invalid style path"@
}

pub open spec fn invalid_flag_message() -> Seq<char> {
    "Invalid style value"@
}

/// Why the style update cannot be made, checked in order.
pub open spec fn style_error(u: UserState, a: Area, path: Seq<char>, value: Seq<char>) -> Option<Seq<char>> {
    if area_error(u, a) is Some {
        area_error(u, a)
    } else if style_with(crate::types::default_style(), path, true) is None {
        Some(invalid_style_message())
    } else if flag_value(value) is None {
        Some(invalid_flag_message())
    } else {
        None
    }
}

/// The characters of an optional text.
pub open spec fn text_view(text: Option<&str>) -> Option<Seq<char>> {
    match text {
        Some(x) => Some(x@),
        None => None,
    }
}

/// `s` with its link set to `link` and, when a text is given, its content
/// typed from it.
pub open spec fn with_link(s: Slot, link: Link, text: Option<Seq<char>>, s2: Slot) -> bool {
    &&& s2.link == Some(link)
    &&& s2.cell.style == s.cell.style
    &&& match text {
        Some(t) => content_of_input(s2.cell.content, t),
        None => s2.cell.content == s.cell.content,
    }
}

/// The font flag named by `path` set to `on` (exec form of `style_with`).
fn exec_style_with(st: Style, path: &str, on: bool) -> (r: Option<Style>)
    ensures
        r == style_with(st, path@, on),
{
    let p = String::from_str(path);
    let f = st.font;
    if p == String::from_str("font.b") {
        Some(Style { font: Font { b: on, i: f.i, u: f.u, strike: f.strike } })
    } else if p == String::from_str("font.i") {
        Some(Style { font: Font { b: f.b, i: on, u: f.u, strike: f.strike } })
    } else if p == String::from_str("font.u") {
        Some(Style { font: Font { b: f.b, i: f.i, u: on, strike: f.strike } })
    } else if p == String::from_str("font.strike") {
        Some(Style { font: Font { b: f.b, i: f.i, u: f.u, strike: on } })
    } else {
        None
    }
}

/// The boolean spelled by `v` (exec form of `flag_value`).
fn exec_flag_value(v: &str) -> (r: Option<bool>)
    ensures
        r == flag_value(v@),
{
    let s = String::from_str(v);
    if s == String::from_str("true") {
        Some(true)
    } else if s == String::from_str("false") {
        Some(false)
    } else {
        None
    }
}

impl UserModel {
    /// Attaches `link` to the cell; when `text` is given it also becomes the
    /// cell's value, as typed. A covered cell of a merged region cannot take a
    /// link. Undoable.
    pub fn set_cell_link(&mut self, sheet: u32, row: i32, column: i32, link: Link, text: Option<&str>) -> (r:
        Result<(), String>)
        requires
            old(self).wf(),
        ensures
            final(self).wf(),
            ({
                let u = old(self).state();
                let k = (row as int, column as int);
                let t = text_view(text);
                match write_error(u, sheet as int, row as int, column as int) {
                    Some(msg) => r matches Err(e) && e@ == msg && final(self).state() == u,
                    None => r is Ok && exists|s2: Slot|
                        #[trigger] with_link(u.sheets[sheet as int].grid[k], link, t, s2)
                            && final(self).state() == recorded_swap(
                            u,
                            sheet as int,
                            SheetState {
                                grid: u.sheets[sheet as int].grid.insert(k, s2),
                                merges: u.sheets[sheet as int].merges,
                            },
                        ),
                }
            }),
    {
        self.check_writable(sheet, row, column)?;
        let worksheet = &self.model.worksheets[sheet as usize];
        assert(worksheet.wf());
        let slot = worksheet.slot(row, column);
        let content = match text {
            Some(t) => content_from_input(t),
            None => slot.cell.content,
        };
        let new_slot = Slot { cell: Cell { content, style: slot.cell.style }, link: Some(link) };
        let ghost s2 = new_slot;
        let ghost t = text_view(text);
        let mut ws = worksheet.duplicate();
        proof {
            if text is None && covered_by_region(ws.merge_cells@, row as int, column as int) {
                crate::worksheet::lemma_covered_content(ws.state(), row as int, column as int);
            }
        }
        ws.set_slot(row, column, new_slot);
        self.replace_sheet(sheet, ws);
        proof {
            let u = old(self).state();
            let k = (row as int, column as int);
            assert(with_link(u.sheets[sheet as int].grid[k], link, t, s2));
            assert(self.state() == recorded_swap(
                u,
                sheet as int,
                SheetState { grid: u.sheets[sheet as int].grid.insert(k, s2), merges: u.sheets[sheet as int].merges },
            ));
        }
        Ok(())
    }

    /// Removes the link of the cell; a no-op when it has none. Undoable.
    pub fn delete_cell_link(&mut self, sheet: u32, row: i32, column: i32) -> (r: Result<(), String>)
        requires
            old(self).wf(),
        ensures
            final(self).wf(),
            ({
                let u = old(self).state();
                let k = (row as int, column as int);
                match position_error(u, sheet as int, row as int, column as int) {
                    Some(msg) => r matches Err(e) && e@ == msg && final(self).state() == u,
                    None => r is Ok && if u.sheets[sheet as int].grid[k].link is None {
                        final(self).state() == u
                    } else {
                        final(self).state() == recorded_swap(
                            u,
                            sheet as int,
                            SheetState {
                                grid: u.sheets[sheet as int].grid.insert(
                                    k,
                                    Slot { cell: u.sheets[sheet as int].grid[k].cell, link: None },
                                ),
                                merges: u.sheets[sheet as int].merges,
                            },
                        )
                    },
                }
            }),
    {
        self.check_position(sheet, row, column)?;
        let worksheet = &self.model.worksheets[sheet as usize];
        assert(worksheet.wf());
        let slot = worksheet.slot(row, column);
        if slot.link.is_none() {
            return Ok(());
        }
        proof {
            if covered_by_region(worksheet.merge_cells@, row as int, column as int) {
                crate::worksheet::lemma_covered_content(worksheet.state(), row as int, column as int);
            }
        }
        let mut ws = worksheet.duplicate();
        ws.set_slot(row, column, Slot { cell: slot.cell, link: None });
        self.replace_sheet(sheet, ws);
        Ok(())
    }

    /// Sets the font flag named by `path` (`font.b`, `font.i`, `font.u` or
    /// `font.strike`) to `value` (`true` or `false`) on every cell of `area`.
    /// Undoable.
    pub fn update_range_style(&mut self, area: &Area, path: &str, value: &str) -> (r: Result<(), String>)
        requires
            old(self).wf(),
        ensures
            final(self).wf(),
            ({
                let u = old(self).state();
                match style_error(u, *area, path@, value@) {
                    Some(msg) => r matches Err(e) && e@ == msg && final(self).state() == u,
                    None => r is Ok && final(self).state() == recorded_swap(
                        u,
                        area.sheet as int,
                        SheetState {
                            grid: styled_grid(
                                u.sheets[area.sheet as int].grid,
                                area_rect(*area),
                                path@,
                                flag_value(value@).unwrap(),
                            ),
                            merges: u.sheets[area.sheet as int].merges,
                        },
                    ),
                }
            }),
    {
        self.check_area(area)?;
        if exec_style_with(crate::types::new_default_style(), path, true).is_none() {
            return Err(String::from_str("Invalid style path"));
        }
        let on = match exec_flag_value(value) {
            Some(b) => b,
            None => {
                return Err(String::from_str("Invalid style value"));
            },
        };
        let sheet = area.sheet;
        let rect = MergeCell { row: area.row, column: area.column, width: area.width, height: area.height };
        let worksheet = &self.model.worksheets[sheet as usize];
        assert(worksheet.wf());
        let ghost g0 = worksheet.state().grid;
        let ghost ms0 = worksheet.merge_cells@;
        let mut ws = worksheet.duplicate();
        let row_end = area.row + area.height;
        let column_end = area.column + area.width;
        let mut r = area.row;
        while r < row_end
            invariant
                ws.wf(),
                area_valid(*area),
                rect == area_rect(*area),
                row_end == area.row + area.height,
                column_end == area.column + area.width,
                area.row <= r <= row_end,
                ws.merge_cells@ == ms0,
                forall|k: (int, int)| #[trigger] ws.state().grid[k] == (if contains(rect, k.0, k.1) && k.0 < r {
                    styled_grid(g0, rect, path@, on)[k]
                } else {
                    g0[k]
                }),
                style_with(crate::types::default_style(), path@, true) is Some,
            decreases row_end - r,
        {
            let mut c = area.column;
            while c < column_end
                invariant
                    ws.wf(),
                    area_valid(*area),
                    rect == area_rect(*area),
                    column_end == area.column + area.width,
                    area.row <= r < row_end,
                    row_end == area.row + area.height,
                    area.column <= c <= column_end,
                    ws.merge_cells@ == ms0,
                    forall|k: (int, int)| #[trigger] ws.state().grid[k] == (if contains(rect, k.0, k.1) && (k.0 < r
                        || (k.0 == r && k.1 < c)) {
                        styled_grid(g0, rect, path@, on)[k]
                    } else {
                        g0[k]
                    }),
                    style_with(crate::types::default_style(), path@, true) is Some,
                decreases column_end - c,
            {
                let slot = ws.slot(r, c);
                let style = match exec_style_with(slot.cell.style, path, on) {
                    Some(st) => st,
                    None => slot.cell.style,
                };
                proof {
                    if covered_by_region(ws.merge_cells@, r as int, c as int) {
                        crate::worksheet::lemma_covered_content(ws.state(), r as int, c as int);
                    }
                }
                let ghost before = ws.state().grid;
                ws.set_slot(r, c, Slot { cell: Cell { content: slot.cell.content, style }, link: slot.link });
                proof {
                    assert forall|k: (int, int)| #[trigger] ws.state().grid[k] == (if contains(rect, k.0, k.1) && (
                    k.0 < r || (k.0 == r && k.1 < c + 1)) {
                        styled_grid(g0, rect, path@, on)[k]
                    } else {
                        g0[k]
                    }) by {
                        if k == (r as int, c as int) {
                            assert(before[k] == g0[k]);
                        } else {
                            assert(ws.state().grid[k] == before[k]);
                        }
                    }
                }
                c = c + 1;
            }
            proof {
                assert forall|k: (int, int)| #[trigger] ws.state().grid[k] == (if contains(rect, k.0, k.1) && k.0 < r
                    + 1 {
                    styled_grid(g0, rect, path@, on)[k]
                } else {
                    g0[k]
                }) by {}
            }
            r = r + 1;
        }
        proof {
            assert(ws.state().grid =~= styled_grid(g0, rect, path@, on));
        }
        self.replace_sheet(sheet, ws);
        Ok(())
    }
}

/// The characters a cell shows as its content: the text or formula as typed.
pub open spec fn content_text(c: CellContent) -> Seq<char> {
    match c {
        CellContent::Empty => Seq::empty(),
        CellContent::Text(t) => t@,
        CellContent::Formula(f) => f@,
        CellContent::ArrayFormula { formula, .. } => formula@,
    }
}


impl UserModel {
    /// The link of the cell, if any.
    pub fn get_cell_link(&self, sheet: u32, row: i32, column: i32) -> (r: Result<Option<Link>, String>)
        requires
            self.wf(),
        ensures
            match r {
                Ok(l) => sheet < self.state().sheets.len() && l == self.state().sheets[sheet as int].grid[(
                row as int,
                column as int,
                )].link,
                Err(e) => sheet >= self.state().sheets.len() && e@ == invalid_sheet_message(),
            },
    {
        let worksheet = self.model.worksheet(sheet)?;
        assert(worksheet.wf());
        Ok(worksheet.slot(row, column).link)
    }

    /// The style of the cell.
    pub fn get_cell_style(&self, sheet: u32, row: i32, column: i32) -> (r: Result<Style, String>)
        requires
            self.wf(),
        ensures
            match r {
                Ok(st) => sheet < self.state().sheets.len() && st == self.state().sheets[sheet as int].grid[(
                row as int,
                column as int,
                )].cell.style,
                Err(e) => sheet >= self.state().sheets.len() && e@ == invalid_sheet_message(),
            },
    {
        let worksheet = self.model.worksheet(sheet)?;
        assert(worksheet.wf());
        Ok(worksheet.slot(row, column).cell.style)
    }

    /// The content of the cell as typed (a formula with its leading `=`);
    /// empty for an empty cell.
    pub fn get_cell_content(&self, sheet: u32, row: i32, column: i32) -> (r: Result<String, String>)
        requires
            self.wf(),
        ensures
            match r {
                Ok(s) => sheet < self.state().sheets.len() && s@ == content_text(
                    self.state().sheets[sheet as int].grid[(row as int, column as int)].cell.content,
                ),
                Err(e) => sheet >= self.state().sheets.len() && e@ == invalid_sheet_message(),
            },
    {
        let worksheet = self.model.worksheet(sheet)?;
        assert(worksheet.wf());
        match worksheet.slot(row, column).cell.content {
            CellContent::Empty => Ok(String::new()),
            CellContent::Text(t) => Ok(t),
            CellContent::Formula(f) => Ok(f),
            CellContent::ArrayFormula { formula, .. } => Ok(formula),
        }
    }

    /// The value the cell shows: its text as typed, nothing for an empty
    /// cell, and for a formula its value computed from the sheet as it stands.
    pub fn get_formatted_cell_value(&self, sheet: u32, row: i32, column: i32) -> (r: Result<String, String>)
        requires
            self.wf(),
        ensures
            match r {
                Ok(s) => sheet < self.state().sheets.len() && s@ == shown_value(
                    self.state().sheets[sheet as int].grid,
                    (row as int, column as int),
                ),
                Err(e) => sheet >= self.state().sheets.len() && e@ == invalid_sheet_message(),
            },
    {
        let worksheet = self.model.worksheet(sheet)?;
        assert(worksheet.wf());
        match worksheet.slot(row, column).cell.content {
            CellContent::Empty => match find_spill(worksheet, row, column) {
                SpillSearch::Nothing => Ok(String::new()),
                _ => {
                    let v = read_value(worksheet, row, column, EVAL_DEPTH);
                    Ok(value_to_text(&v))
                },
            },
            CellContent::Text(t) => Ok(t),
            _ => {
                let v = read_value(worksheet, row, column, EVAL_DEPTH);
                Ok(value_to_text(&v))
            },
        }
    }
}

} // verus!
