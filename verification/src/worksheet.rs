//! A worksheet: its stored cells and its merged regions.
use vstd::prelude::*;

use crate::displace::{displace_regions, displaced_regions, edit_keeps_regions};
use crate::edit::{edit_ok, edited_grid, last_line, line_of, transform_cells, Axis, GridEdit};
use crate::geometry::{contains, covers, overlaps, region_valid, regions_wf};
use crate::grid::{entries_wf, grid_of, has_key, read_slot, valid_position, write_slot, CellEntry};
use crate::types::{default_cell, default_slot, Cell, CellContent, MergeCell, Slot, LAST_COLUMN, LAST_ROW};

verus! {

/// What a worksheet holds, as seen from outside: every grid position and the
/// list of merged regions.
pub struct SheetState {
    pub grid: Map<(int, int), Slot>,
    pub merges: Seq<MergeCell>,
}

#[derive(Debug)]
pub struct Worksheet {
    pub cells: Vec<CellEntry>,
    pub merge_cells: Vec<MergeCell>,
}

/// Some region of `ms` contains `(r, c)`.
pub open spec fn in_some_region(ms: Seq<MergeCell>, r: int, c: int) -> bool {
    exists|i: int| 0 <= i < ms.len() && contains(#[trigger] ms[i], r, c)
}

/// The index of the region of `ms` that contains `(r, c)`.
pub open spec fn region_index_at(ms: Seq<MergeCell>, r: int, c: int) -> int {
    choose|i: int| 0 <= i < ms.len() && contains(#[trigger] ms[i], r, c)
}

/// The region of `ms` that contains `(r, c)`, if any.
pub open spec fn region_at(ms: Seq<MergeCell>, r: int, c: int) -> Option<MergeCell> {
    if in_some_region(ms, r, c) {
        Some(ms[region_index_at(ms, r, c)])
    } else {
        None
    }
}

/// The state after merging `m`: covered cells lose their content and `m`
/// joins the list.
pub open spec fn merged(st: SheetState, m: MergeCell) -> SheetState {
    SheetState {
        grid: edited_grid(st.grid, GridEdit::ClearCovered { region: m }),
        merges: st.merges.push(m),
    }
}

/// The state after removing the region at index `i`.
pub open spec fn unmerged(st: SheetState, i: int) -> SheetState {
    SheetState { grid: st.grid, merges: st.merges.remove(i) }
}

/// The state after a whole-grid edit.
pub open spec fn edited(st: SheetState, e: GridEdit) -> SheetState {
    SheetState { grid: edited_grid(st.grid, e), merges: displaced_regions(st.merges, e) }
}

/// How a cell is recorded for undo: nothing for an untouched cell.
pub open spec fn snapshot(c: Cell) -> Option<Cell> {
    if c == default_cell() {
        None
    } else {
        Some(c)
    }
}

/// The cell that a record stands for.
pub open spec fn unsnapshot(o: Option<Cell>) -> Cell {
    match o {
        Some(c) => c,
        None => default_cell(),
    }
}

/// The cells of `m`, row by row, as recorded for undo; the anchor is not recorded.
pub open spec fn covered_snapshot(st: SheetState, m: MergeCell) -> Seq<Seq<Option<Cell>>> {
    Seq::new(
        m.height as nat,
        |i: int|
            Seq::new(
                m.width as nat,
                |j: int|
                    if i == 0 && j == 0 {
                        None
                    } else {
                        snapshot(st.grid[(m.row + i, m.column + j)].cell)
                    },
            ),
    )
}

/// The grid after the covered cells of `m` are given back the recorded cells
/// (links stay as they are).
pub open spec fn restored_grid(
    g: Map<(int, int), Slot>,
    m: MergeCell,
    old: Seq<Seq<Option<Cell>>>,
) -> Map<(int, int), Slot> {
    Map::new(
        |k: (int, int)| true,
        |k: (int, int)|
            if covers(m, k.0, k.1) {
                Slot { cell: unsnapshot(old[k.0 - m.row][k.1 - m.column]), link: g[k].link }
            } else {
                g[k]
            },
    )
}

/// A table of rows, as sequences.
pub open spec fn rows_view<T>(v: Seq<Vec<T>>) -> Seq<Seq<T>> {
    Seq::new(v.len(), |i: int| v[i]@)
}

/// Two regions that both contain a cell are the same region.
pub proof fn lemma_region_unique(ms: Seq<MergeCell>, i: int, j: int, r: int, c: int)
    requires
        regions_wf(ms),
        0 <= i < ms.len(),
        0 <= j < ms.len(),
        contains(ms[i], r, c),
        contains(ms[j], r, c),
    ensures
        i == j,
{
    if i != j {
        assert(!overlaps(ms[i], ms[j]));
    }
}

/// The grid maps every position of the plane.
pub open spec fn total_grid(g: Map<(int, int), Slot>) -> bool {
    forall|k: (int, int)| #[trigger] g.dom().contains(k)
}

/// Inserting `count` lines before line `start` would push a cell that holds
/// something (content, a style or a link) past the last line.
pub open spec fn insert_loses_cells(st: SheetState, axis: Axis, start: int, count: int) -> bool {
    exists|r: int, c: int|
        #![trigger st.grid[(r, c)]]
        valid_position(r, c) && st.grid[(r, c)] != default_slot() && line_of(axis, r, c) >= start
            && line_of(axis, r, c) + count > last_line(axis)
}

/// The edit cuts through the range of an array formula of the sheet.
pub open spec fn edit_breaks_array(st: SheetState, e: GridEdit) -> bool {
    exists|r: int, c: int|
        #![trigger st.grid[(r, c)]]
        valid_position(r, c) && match st.grid[(r, c)].cell.content {
            CellContent::ArrayFormula { width, height, .. } => !crate::displace::edit_keeps_block(
                e,
                r,
                c,
                width as int,
                height as int,
            ),
            _ => false,
        }
}

/// Some cell holds an array formula whose range contains `(r, c)`.
pub open spec fn in_array_formula(st: SheetState, r: int, c: int) -> bool {
    exists|a: int, b: int|
        #![trigger st.grid[(a, b)]]
        valid_position(a, b) && match st.grid[(a, b)].cell.content {
            CellContent::ArrayFormula { width, height, .. } => a <= r < a + height && b <= c < b + width,
            _ => false,
        }
}

/// Covered cells hold no content: a merged region keeps its value in its anchor.
pub open spec fn covered_empty(st: SheetState) -> bool {
    forall|i: int, r: int, c: int|
        #![trigger covers(st.merges[i], r, c)]
        0 <= i < st.merges.len() && covers(st.merges[i], r, c) ==> st.grid[(r, c)].cell.content
            == CellContent::Empty
}

/// Some region of `ms` covers `(r, c)` (contains it without it being the anchor).
pub open spec fn covered_by_region(ms: Seq<MergeCell>, r: int, c: int) -> bool {
    exists|i: int| 0 <= i < ms.len() && covers(#[trigger] ms[i], r, c)
}

/// A whole-grid edit keeps covered cells empty.
pub proof fn lemma_edited_covered_empty(st: SheetState, e: GridEdit)
    requires
        edit_ok(e),
        regions_wf(st.merges),
        edit_keeps_regions(e, st.merges),
        covered_empty(st),
    ensures
        covered_empty(edited(st, e)),
{
    let st2 = edited(st, e);
    let ms = st.merges;
    crate::displace::lemma_displaced_origin(ms, e);
    assert forall|i: int, r: int, c: int|
        0 <= i < st2.merges.len() && #[trigger] covers(st2.merges[i], r, c) implies st2.grid[(r, c)].cell.content
        == CellContent::Empty by {
        let j = choose|j: int| 0 <= j < ms.len() && crate::displace::displaced_region(e, ms[j]) == Some(st2.merges[i]);
        assert(region_valid(ms[j]));
        assert(crate::displace::edit_keeps_region(e, ms[j]));
        crate::displace::lemma_displaced_covers(e, ms[j], st2.merges[i], r, c);
        let src = crate::edit::edit_source(e, r, c);
        crate::edit::lemma_edit_source(e, src.0, src.1, (r, c));
        if crate::edit::edit_key(e, src.0, src.1) == Some((r, c)) {
            assert(covers(st.merges[j], src.0, src.1));
            assert(st.grid[src].cell.content == CellContent::Empty);
        }
    }
}

/// A covered cell holds no content.
pub proof fn lemma_covered_content(st: SheetState, r: int, c: int)
    requires
        covered_empty(st),
        covered_by_region(st.merges, r, c),
    ensures
        st.grid[(r, c)].cell.content == CellContent::Empty,
{
    let i = choose|i: int| 0 <= i < st.merges.len() && covers(#[trigger] st.merges[i], r, c);
    assert(covers(st.merges[i], r, c));
}

/// A cell is covered exactly when the region containing it has another anchor.
pub proof fn lemma_covered_iff(ms: Seq<MergeCell>, r: int, c: int)
    requires
        regions_wf(ms),
    ensures
        covered_by_region(ms, r, c) == (region_at(ms, r, c) matches Some(m) && !crate::geometry::is_anchor(
            m,
            r,
            c,
        )),
{
    if covered_by_region(ms, r, c) {
        let j = choose|j: int| 0 <= j < ms.len() && covers(#[trigger] ms[j], r, c);
        assert(contains(ms[j], r, c));
        let k = region_index_at(ms, r, c);
        lemma_region_unique(ms, j, k, r, c);
    }
    if in_some_region(ms, r, c) {
        let k = region_index_at(ms, r, c);
        if !crate::geometry::is_anchor(ms[k], r, c) {
            assert(covers(ms[k], r, c));
        }
    }
}

impl Worksheet {
    pub open spec fn state(&self) -> SheetState {
        SheetState { grid: grid_of(self.cells@), merges: self.merge_cells@ }
    }

    /// Cells sit inside the sheet, each stored once; regions are valid,
    /// pairwise disjoint, and their covered cells hold no content.
    pub open spec fn wf(&self) -> bool {
        &&& entries_wf(self.cells@)
        &&& regions_wf(self.merge_cells@)
        &&& covered_empty(self.state())
    }

    /// An empty worksheet.
    pub fn new() -> (ws: Worksheet)
        ensures
            ws.wf(),
            ws.state().merges == Seq::<MergeCell>::empty(),
            forall|k: (int, int)| #[trigger] ws.state().grid[k] == crate::types::default_slot(),
    {
        let ws = Worksheet { cells: Vec::new(), merge_cells: Vec::new() };
        proof {
            assert forall|k: (int, int)| #[trigger] ws.state().grid[k] == crate::types::default_slot() by {
                crate::grid::lemma_lookup_absent(ws.cells@, k.0, k.1);
            }
        }
        ws
    }

    /// What `(r, c)` holds.
    pub fn slot(&self, r: i32, c: i32) -> (s: Slot)
        requires
            self.wf(),
        ensures
            s == self.state().grid[(r as int, c as int)],
    {
        read_slot(&self.cells, r, c)
    }

    /// Stores `s` at `(r, c)`; content goes only where no region covers.
    pub fn set_slot(&mut self, r: i32, c: i32, s: Slot)
        requires
            old(self).wf(),
            valid_position(r as int, c as int),
            s.cell.content == CellContent::Empty || !covered_by_region(
                old(self).merge_cells@,
                r as int,
                c as int,
            ),
        ensures
            final(self).wf(),
            final(self).state() == (SheetState {
                grid: old(self).state().grid.insert((r as int, c as int), s),
                merges: old(self).state().merges,
            }),
    {
        let ghost st0 = self.state();
        write_slot(&mut self.cells, r, c, s);
        proof {
            let st = self.state();
            assert forall|i: int, r2: int, c2: int|
                0 <= i < st.merges.len() && #[trigger] covers(st.merges[i], r2, c2) implies st.grid[(r2, c2)].cell.content
                == CellContent::Empty by {
                if (r2, c2) != (r as int, c as int) {
                    assert(covers(st0.merges[i], r2, c2));
                }
            }
        }
    }

    /// The cell at `(r, c)` as recorded for undo.
    pub fn cell(&self, r: i32, c: i32) -> (res: Option<Cell>)
        requires
            self.wf(),
        ensures
            res == snapshot(self.state().grid[(r as int, c as int)].cell),
    {
        let s = self.slot(r, c);
        let untouched = match s.cell.content {
            CellContent::Empty => s.cell.style == crate::types::new_default_style(),
            _ => false,
        };
        if untouched {
            None
        } else {
            Some(s.cell)
        }
    }

    /// Every merged region, in order.
    pub fn merge_cells_parsed(&self) -> (res: Vec<MergeCell>)
        ensures
            res@ == self.merge_cells@,
    {
        let n = self.merge_cells.len();
        let mut out: Vec<MergeCell> = Vec::new();
        let mut i: usize = 0;
        while i < n
            invariant
                n == self.merge_cells@.len(),
                i <= n,
                out@ == self.merge_cells@.take(i as int),
            decreases n - i,
        {
            out.push(self.merge_cells[i]);
            i = i + 1;
            proof {
                assert(out@ =~= self.merge_cells@.take(i as int));
            }
        }
        proof {
            assert(self.merge_cells@.take(n as int) =~= self.merge_cells@);
        }
        out
    }

    /// The index of the region containing `(r, c)`, if any.
    pub fn merge_index_at(&self, r: i32, c: i32) -> (res: Option<usize>)
        requires
            self.wf(),
        ensures
            match res {
                Some(i) => in_some_region(self.merge_cells@, r as int, c as int) && i as int
                    == region_index_at(self.merge_cells@, r as int, c as int),
                None => !in_some_region(self.merge_cells@, r as int, c as int),
            },
    {
        let ghost ms = self.merge_cells@;
        let n = self.merge_cells.len();
        let mut i: usize = 0;
        while i < n
            invariant
                n == ms.len(),
                ms == self.merge_cells@,
                regions_wf(ms),
                i <= n,
                forall|j: int| 0 <= j < i ==> !contains(#[trigger] ms[j], r as int, c as int),
            decreases n - i,
        {
            if crate::geometry::region_contains(&self.merge_cells[i], r, c) {
                proof {
                    let k = region_index_at(ms, r as int, c as int);
                    assert(contains(ms[i as int], r as int, c as int));
                    lemma_region_unique(ms, i as int, k, r as int, c as int);
                }
                return Some(i);
            }
            i = i + 1;
        }
        None
    }

    /// The region containing `(r, c)` (anchor or covered), if any.
    pub fn merge_at(&self, r: i32, c: i32) -> (res: Option<MergeCell>)
        requires
            self.wf(),
        ensures
            res == region_at(self.merge_cells@, r as int, c as int),
    {
        match self.merge_index_at(r, c) {
            Some(i) => Some(self.merge_cells[i]),
            None => None,
        }
    }

    /// Merges `m`: covered cells lose their content (styles and links stay)
    /// and `m` joins the list.
    pub fn apply_merge(&mut self, m: MergeCell)
        requires
            old(self).wf(),
            region_valid(m),
            forall|i: int|
                0 <= i < old(self).merge_cells@.len() ==> !overlaps(#[trigger] old(self).merge_cells@[i], m),
        ensures
            final(self).wf(),
            final(self).state() == merged(old(self).state(), m),
    {
        let e = GridEdit::ClearCovered { region: m };
        let cells = transform_cells(&self.cells, &e);
        self.cells = cells;
        let ghost ms = self.merge_cells@;
        self.merge_cells.push(m);
        proof {
            let t = self.merge_cells@;
            assert(t == ms.push(m));
            assert forall|i: int, j: int|
                0 <= i < t.len() && 0 <= j < t.len() && i != j implies !overlaps(
                #[trigger] t[i],
                #[trigger] t[j],
            ) by {
                if i < ms.len() && j < ms.len() {
                    assert(t[i] == ms[i] && t[j] == ms[j]);
                } else if i < ms.len() {
                    assert(t[i] == ms[i]);
                    assert(!overlaps(ms[i], m));
                } else {
                    assert(t[j] == ms[j]);
                    assert(!overlaps(ms[j], m));
                }
            }
            assert forall|i: int| 0 <= i < t.len() implies region_valid(#[trigger] t[i]) by {
                if i < ms.len() {
                    assert(t[i] == ms[i]);
                }
            }
            let st = self.state();
            assert forall|i: int, r: int, c: int|
                0 <= i < st.merges.len() && #[trigger] covers(st.merges[i], r, c) implies st.grid[(r, c)].cell.content
                == CellContent::Empty by {
                if i < ms.len() {
                    assert(t[i] == ms[i]);
                    assert(covers(old(self).state().merges[i], r, c));
                }
            }
        }
    }

    /// Removes the region containing `(r, c)` and returns it; `None` if there is none.
    pub fn remove_merge_at(&mut self, r: i32, c: i32) -> (res: Option<MergeCell>)
        requires
            old(self).wf(),
        ensures
            final(self).wf(),
            res == region_at(old(self).merge_cells@, r as int, c as int),
            match res {
                Some(_) => final(self).state() == unmerged(
                    old(self).state(),
                    region_index_at(old(self).merge_cells@, r as int, c as int),
                ),
                None => final(self).state() == old(self).state(),
            },
    {
        match self.merge_index_at(r, c) {
            Some(i) => {
                let ghost ms = self.merge_cells@;
                let m = self.merge_cells.remove(i);
                proof {
                    let t = self.merge_cells@;
                    assert(t == ms.remove(i as int));
                    assert forall|a: int, b: int|
                        0 <= a < t.len() && 0 <= b < t.len() && a != b implies !overlaps(
                        #[trigger] t[a],
                        #[trigger] t[b],
                    ) by {
                        let a2 = if a < i { a } else { a + 1 };
                        let b2 = if b < i { b } else { b + 1 };
                        assert(t[a] == ms[a2] && t[b] == ms[b2]);
                    }
                    assert forall|a: int| 0 <= a < t.len() implies region_valid(#[trigger] t[a]) by {
                        let a2 = if a < i { a } else { a + 1 };
                        assert(t[a] == ms[a2]);
                    }
                    let st = self.state();
                    assert forall|a: int, r2: int, c2: int|
                        0 <= a < st.merges.len() && #[trigger] covers(st.merges[a], r2, c2) implies st.grid[(r2, c2)].cell.content
                        == CellContent::Empty by {
                        let a2 = if a < i { a } else { a + 1 };
                        assert(t[a] == ms[a2]);
                        assert(covers(old(self).state().merges[a2], r2, c2));
                    }
                }
                Some(m)
            },
            None => None,
        }
    }

    /// Whether inserting `count` lines before line `start` would push a cell
    /// that holds something past the last line (exec form of
    /// `insert_loses_cells`).
    pub fn insert_loses_cells(&self, axis: Axis, start: i32, count: i32) -> (r: bool)
        requires
            self.wf(),
        ensures
            r == insert_loses_cells(self.state(), axis, start as int, count as int),
    {
        let ghost s = self.cells@;
        let last: i64 = match axis {
            Axis::Rows => LAST_ROW as i64,
            Axis::Columns => LAST_COLUMN as i64,
        };
        let n = self.cells.len();
        let mut i: usize = 0;
        while i < n
            invariant
                n == s.len(),
                s == self.cells@,
                entries_wf(s),
                i <= n,
                last == last_line(axis),
                forall|j: int|
                    0 <= j < i ==> !({
                        let x = #[trigger] s[j];
                        x.slot != default_slot() && line_of(axis, x.row as int, x.column as int) >= start
                            && line_of(axis, x.row as int, x.column as int) + count > last_line(axis)
                    }),
            decreases n - i,
        {
            let x = &self.cells[i];
            let l = match axis {
                Axis::Rows => x.row,
                Axis::Columns => x.column,
            };
            let blank = match x.slot.cell.content {
                CellContent::Empty => x.slot.cell.style == crate::types::new_default_style()
                    && x.slot.link.is_none(),
                _ => false,
            };
            if l >= start && l as i64 + count as i64 > last && !blank {
                proof {
                    crate::grid::lemma_lookup_entry(s, i as int);
                    assert(valid_position(s[i as int].row as int, s[i as int].column as int));
                    assert(self.state().grid[(x.row as int, x.column as int)] == x.slot);
                }
                return true;
            }
            i = i + 1;
        }
        proof {
            assert forall|r: int, c: int|
                valid_position(r, c) && #[trigger] self.state().grid[(r, c)] != default_slot() implies !(
            line_of(axis, r, c) >= start && line_of(axis, r, c) + count > last_line(axis)) by {
                if forall|j: int| 0 <= j < s.len() ==> !has_key(#[trigger] s[j], r, c) {
                    crate::grid::lemma_lookup_absent(s, r, c);
                } else {
                    let j = choose|j: int| 0 <= j < s.len() && has_key(#[trigger] s[j], r, c);
                    crate::grid::lemma_lookup_entry(s, j);
                }
            }
        }
        false
    }

    /// Whether the edit cuts through the range of an array formula (exec form
    /// of `edit_breaks_array`).
    pub fn edit_breaks_array(&self, e: &GridEdit) -> (res: bool)
        requires
            self.wf(),
        ensures
            res == edit_breaks_array(self.state(), *e),
    {
        let ghost s = self.cells@;
        let n = self.cells.len();
        let mut i: usize = 0;
        while i < n
            invariant
                n == s.len(),
                s == self.cells@,
                entries_wf(s),
                i <= n,
                forall|j: int|
                    0 <= j < i ==> match (#[trigger] s[j]).slot.cell.content {
                        CellContent::ArrayFormula { width, height, .. } => crate::displace::edit_keeps_block(
                            *e,
                            s[j].row as int,
                            s[j].column as int,
                            width as int,
                            height as int,
                        ),
                        _ => true,
                    },
            decreases n - i,
        {
            let x = &self.cells[i];
            if let CellContent::ArrayFormula { width, height, .. } = &x.slot.cell.content {
                if !crate::displace::keeps_block(e, x.row, x.column, *width, *height) {
                    proof {
                        crate::grid::lemma_lookup_entry(s, i as int);
                        assert(valid_position(s[i as int].row as int, s[i as int].column as int));
                        assert(self.state().grid[(x.row as int, x.column as int)] == x.slot);
                    }
                    return true;
                }
            }
            i = i + 1;
        }
        proof {
            if edit_breaks_array(self.state(), *e) {
                let (a, b) = choose|a: int, b: int|
                    #![trigger self.state().grid[(a, b)]]
                    valid_position(a, b) && match self.state().grid[(a, b)].cell.content {
                        CellContent::ArrayFormula { width, height, .. } => !crate::displace::edit_keeps_block(
                            *e,
                            a,
                            b,
                            width as int,
                            height as int,
                        ),
                        _ => false,
                    };
                if forall|j: int| 0 <= j < s.len() ==> !has_key(#[trigger] s[j], a, b) {
                    crate::grid::lemma_lookup_absent(s, a, b);
                } else {
                    let j = choose|j: int| 0 <= j < s.len() && has_key(#[trigger] s[j], a, b);
                    crate::grid::lemma_lookup_entry(s, j);
                }
            }
        }
        false
    }

    /// Whether `(r, c)` lies in the range of an array formula (exec form of
    /// `in_array_formula`).
    pub fn in_array_formula(&self, r: i32, c: i32) -> (res: bool)
        requires
            self.wf(),
        ensures
            res == in_array_formula(self.state(), r as int, c as int),
    {
        let ghost s = self.cells@;
        let n = self.cells.len();
        let mut i: usize = 0;
        while i < n
            invariant
                n == s.len(),
                s == self.cells@,
                entries_wf(s),
                i <= n,
                forall|j: int|
                    0 <= j < i ==> match (#[trigger] s[j]).slot.cell.content {
                        CellContent::ArrayFormula { width, height, .. } => !(s[j].row <= r < s[j].row + height
                            && s[j].column <= c < s[j].column + width),
                        _ => true,
                    },
            decreases n - i,
        {
            let x = &self.cells[i];
            if let CellContent::ArrayFormula { width, height, .. } = &x.slot.cell.content {
                if x.row <= r && (r as i64) < x.row as i64 + *height as i64 && x.column <= c && (c as i64)
                    < x.column as i64 + *width as i64 {
                    proof {
                        crate::grid::lemma_lookup_entry(s, i as int);
                        assert(valid_position(s[i as int].row as int, s[i as int].column as int));
                        assert(self.state().grid[(x.row as int, x.column as int)] == x.slot);
                    }
                    return true;
                }
            }
            i = i + 1;
        }
        proof {
            if in_array_formula(self.state(), r as int, c as int) {
                let (a, b) = choose|a: int, b: int|
                    #![trigger self.state().grid[(a, b)]]
                    valid_position(a, b) && match self.state().grid[(a, b)].cell.content {
                        CellContent::ArrayFormula { width, height, .. } => a <= r < a + height && b <= c < b
                            + width,
                        _ => false,
                    };
                if forall|j: int| 0 <= j < s.len() ==> !has_key(#[trigger] s[j], a, b) {
                    crate::grid::lemma_lookup_absent(s, a, b);
                } else {
                    let j = choose|j: int| 0 <= j < s.len() && has_key(#[trigger] s[j], a, b);
                    crate::grid::lemma_lookup_entry(s, j);
                }
            }
        }
        false
    }

    /// The worksheet after a whole-grid edit of its cells and regions.
    pub fn with_edit(&self, e: &GridEdit) -> (r: Worksheet)
        requires
            self.wf(),
            edit_ok(*e),
            edit_keeps_regions(*e, self.merge_cells@),
        ensures
            r.wf(),
            r.state() == edited(self.state(), *e),
    {
        let cells = transform_cells(&self.cells, e);
        let merge_cells = displace_regions(&self.merge_cells, e);
        proof {
            lemma_edited_covered_empty(self.state(), *e);
        }
        Worksheet { cells, merge_cells }
    }

    /// The cells of `m`, row by row, as recorded for undo (the anchor slot is `None`).
    pub fn covered_cells(&self, m: MergeCell) -> (res: Vec<Vec<Option<Cell>>>)
        requires
            self.wf(),
            region_valid(m),
        ensures
            rows_view(res@) == covered_snapshot(self.state(), m),
    {
        let ghost snap = covered_snapshot(self.state(), m);
        let row_end = m.row + m.height;
        let column_end = m.column + m.width;
        let mut out: Vec<Vec<Option<Cell>>> = Vec::new();
        let mut r = m.row;
        while r < row_end
            invariant
                self.wf(),
                region_valid(m),
                row_end == m.row + m.height,
                column_end == m.column + m.width,
                snap == covered_snapshot(self.state(), m),
                m.row <= r <= row_end,
                out@.len() == r - m.row,
                forall|i: int| 0 <= i < out@.len() ==> (#[trigger] out@[i])@ == snap[i],
            decreases row_end - r,
        {
            let mut row_content: Vec<Option<Cell>> = Vec::new();
            let mut c = m.column;
            while c < column_end
                invariant
                    self.wf(),
                    region_valid(m),
                    column_end == m.column + m.width,
                    snap == covered_snapshot(self.state(), m),
                    m.row <= r < m.row + m.height,
                    m.column <= c <= column_end,
                    row_content@ == snap[r - m.row].take(c - m.column),
                decreases column_end - c,
            {
                if r == m.row && c == m.column {
                    row_content.push(None);
                } else {
                    row_content.push(self.cell(r, c));
                }
                proof {
                    assert(row_content@ =~= snap[r - m.row].take(c + 1 - m.column));
                }
                c = c + 1;
            }
            proof {
                assert(row_content@ =~= snap[r - m.row]);
            }
            out.push(row_content);
            r = r + 1;
        }
        proof {
            assert(rows_view(out@) =~= snap);
        }
        out
    }

    /// Gives the covered cells of `m` back the recorded cells; links stay.
    pub fn restore_covered(&mut self, m: MergeCell, old_covered: &Vec<Vec<Option<Cell>>>)
        requires
            old(self).wf(),
            region_valid(m),
            old_covered@.len() == m.height,
            forall|i: int| 0 <= i < m.height ==> (#[trigger] old_covered@[i])@.len() == m.width,
            forall|i: int|
                0 <= i < old(self).merge_cells@.len() ==> !overlaps(#[trigger] old(self).merge_cells@[i], m),
        ensures
            final(self).wf(),
            final(self).state() == (SheetState {
                grid: restored_grid(old(self).state().grid, m, rows_view(old_covered@)),
                merges: old(self).state().merges,
            }),
    {
        let ghost g0 = self.state().grid;
        let ghost ms0 = self.merge_cells@;
        let ghost rows = rows_view(old_covered@);
        let row_end = m.row + m.height;
        let column_end = m.column + m.width;
        let mut r = m.row;
        while r < row_end
            invariant
                self.wf(),
                region_valid(m),
                row_end == m.row + m.height,
                column_end == m.column + m.width,
                old_covered@.len() == m.height,
                forall|i: int| 0 <= i < m.height ==> (#[trigger] old_covered@[i])@.len() == m.width,
                rows == rows_view(old_covered@),
                m.row <= r <= row_end,
                self.merge_cells@ == ms0,
                forall|i: int| 0 <= i < ms0.len() ==> !overlaps(#[trigger] ms0[i], m),
                forall|k: (int, int)| #[trigger] self.state().grid[k] == (if covers(m, k.0, k.1) && k.0 < r {
                    restored_grid(g0, m, rows)[k]
                } else {
                    g0[k]
                }),
            decreases row_end - r,
        {
            let mut c = m.column;
            while c < column_end
                invariant
                    self.wf(),
                    region_valid(m),
                    column_end == m.column + m.width,
                    old_covered@.len() == m.height,
                    forall|i: int| 0 <= i < m.height ==> (#[trigger] old_covered@[i])@.len() == m.width,
                    rows == rows_view(old_covered@),
                    m.row <= r < m.row + m.height,
                    m.column <= c <= column_end,
                    self.merge_cells@ == ms0,
                    forall|i: int| 0 <= i < ms0.len() ==> !overlaps(#[trigger] ms0[i], m),
                    forall|k: (int, int)| #[trigger] self.state().grid[k] == (if covers(m, k.0, k.1) && (k.0
                        < r || (k.0 == r && k.1 < c)) {
                        restored_grid(g0, m, rows)[k]
                    } else {
                        g0[k]
                    }),
                decreases column_end - c,
            {
                if !(r == m.row && c == m.column) {
                    let i = (r - m.row) as usize;
                    let j = (c - m.column) as usize;
                    let current = self.slot(r, c);
                    let cell = match &old_covered[i][j] {
                        Some(x) => x.duplicate(),
                        None => Cell { content: CellContent::Empty, style: crate::types::new_default_style() },
                    };
                    let ghost before = self.state().grid;
                    proof {
                        if covered_by_region(ms0, r as int, c as int) {
                            let a = choose|a: int| 0 <= a < ms0.len() && covers(#[trigger] ms0[a], r as int, c as int);
                            assert(!overlaps(ms0[a], m));
                        }
                    }
                    self.set_slot(r, c, Slot { cell, link: current.link });
                    proof {
                        assert(rows[i as int] == old_covered@[i as int]@);
                        assert forall|k: (int, int)| #[trigger] self.state().grid[k] == (if covers(m, k.0, k.1)
                            && (k.0 < r || (k.0 == r && k.1 < c + 1)) {
                            restored_grid(g0, m, rows)[k]
                        } else {
                            g0[k]
                        }) by {
                            if k == (r as int, c as int) {
                                assert(before[k] == g0[k]);
                            } else {
                                assert(self.state().grid[k] == before[k]);
                            }
                        }
                    }
                } else {
                    proof {
                        assert forall|k: (int, int)| #[trigger] self.state().grid[k] == (if covers(m, k.0, k.1)
                            && (k.0 < r || (k.0 == r && k.1 < c + 1)) {
                            restored_grid(g0, m, rows)[k]
                        } else {
                            g0[k]
                        }) by {}
                    }
                }
                c = c + 1;
            }
            proof {
                assert forall|k: (int, int)| #[trigger] self.state().grid[k] == (if covers(m, k.0, k.1) && k.0
                    < r + 1 {
                    restored_grid(g0, m, rows)[k]
                } else {
                    g0[k]
                }) by {}
            }
            r = r + 1;
        }
        proof {
            assert(self.state().grid =~= restored_grid(g0, m, rows));
        }
    }

    /// A copy of the worksheet.
    pub fn duplicate(&self) -> (r: Worksheet)
        ensures
            r.cells@ == self.cells@,
            r.merge_cells@ == self.merge_cells@,
    {
        let n = self.cells.len();
        let mut cells: Vec<CellEntry> = Vec::new();
        let mut i: usize = 0;
        while i < n
            invariant
                n == self.cells@.len(),
                i <= n,
                cells@ == self.cells@.take(i as int),
            decreases n - i,
        {
            let e = &self.cells[i];
            cells.push(CellEntry { row: e.row, column: e.column, slot: e.slot.duplicate() });
            i = i + 1;
            proof {
                assert(cells@ =~= self.cells@.take(i as int));
            }
        }
        proof {
            assert(self.cells@.take(n as int) =~= self.cells@);
        }
        Worksheet { cells, merge_cells: self.merge_cells_parsed() }
    }
}

} // verus!
