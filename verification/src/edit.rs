//! Edits that rewrite the whole grid at once: clearing a range, inserting or
//! deleting rows or columns, and moving a block of rows or columns.
use vstd::prelude::*;

use crate::geometry::{contains, covers};
use crate::grid::{entries_wf, grid_of, has_key, lookup, valid_position, CellEntry};
use crate::types::{
    default_slot, new_default_slot, Cell, CellContent, MergeCell, Slot, LAST_COLUMN, LAST_ROW,
};

verus! {

/// Rows or columns.
#[derive(PartialEq, Eq, Structural, Clone, Copy, Debug)]
pub enum Axis {
    Rows,
    Columns,
}

/// An edit applied to every stored position of a sheet.
#[derive(PartialEq, Eq, Structural, Clone, Copy, Debug)]
pub enum GridEdit {
    /// Clears content and link inside `area`; styles stay.
    ClearContents { area: MergeCell },
    /// Resets every position inside `area`.
    ClearAll { area: MergeCell },
    /// Clears the content of the covered cells of `region`; styles and links stay.
    ClearCovered { region: MergeCell },
    /// Removes `count` lines starting at `start`; later lines move back.
    Delete { axis: Axis, start: i32, count: i32 },
    /// Inserts `count` blank lines before line `start`; later lines move on.
    Insert { axis: Axis, start: i32, count: i32 },
    /// Moves the `count` lines starting at `start` by `delta`; the lines
    /// passed over shift the other way by `count`.
    Move { axis: Axis, start: i32, count: i32, delta: i32 },
}

pub open spec fn last_line(axis: Axis) -> int {
    match axis {
        Axis::Rows => LAST_ROW as int,
        Axis::Columns => LAST_COLUMN as int,
    }
}

/// The coordinate of `(r, c)` along `axis`.
pub open spec fn line_of(axis: Axis, r: int, c: int) -> int {
    match axis {
        Axis::Rows => r,
        Axis::Columns => c,
    }
}

/// `(r, c)` with its coordinate along `axis` replaced by `l`.
pub open spec fn with_line(axis: Axis, r: int, c: int, l: int) -> (int, int) {
    match axis {
        Axis::Rows => (l, c),
        Axis::Columns => (r, l),
    }
}

/// Where line `l` goes when `count` lines at `start` are deleted.
pub open spec fn delete_line(start: int, count: int, l: int) -> Option<int> {
    if l < start {
        Some(l)
    } else if l < start + count {
        None
    } else {
        Some(l - count)
    }
}

/// Which line ends up at `l` after `count` lines at `start` are deleted.
pub open spec fn delete_line_source(start: int, count: int, l: int) -> int {
    if l < start {
        l
    } else {
        l + count
    }
}

/// Where line `l` goes when `count` lines are inserted before line `start`.
pub open spec fn shift_line(start: int, count: int, l: int) -> int {
    if l < start {
        l
    } else {
        l + count
    }
}

/// Which line ends up at `l` after `count` lines are inserted before line
/// `start`; an inserted line is its own source, which sends it elsewhere.
pub open spec fn insert_line_source(start: int, count: int, l: int) -> int {
    if l < start + count {
        l
    } else {
        l - count
    }
}

/// Where line `l` goes when the block `[start, start + count)` moves by `delta`.
pub open spec fn move_line(start: int, count: int, delta: int, l: int) -> int {
    if start <= l < start + count {
        l + delta
    } else if delta > 0 && start + count <= l < start + count + delta {
        l - count
    } else if delta < 0 && start + delta <= l < start {
        l + count
    } else {
        l
    }
}

/// The parameters of the edit describe lines inside the sheet.
pub open spec fn edit_ok(e: GridEdit) -> bool {
    match e {
        GridEdit::Delete { axis, start, count } => {
            &&& 1 <= start
            &&& 1 <= count
            &&& start + count - 1 <= last_line(axis)
        },
        GridEdit::Insert { axis, start, count } => {
            &&& 1 <= start <= last_line(axis)
            &&& 1 <= count <= last_line(axis)
        },
        GridEdit::Move { axis, start, count, delta } => {
            &&& 1 <= start
            &&& 1 <= count
            &&& start + count - 1 <= last_line(axis)
            &&& 1 <= start + delta
            &&& start + count - 1 + delta <= last_line(axis)
        },
        _ => true,
    }
}

/// Where the edit moves position `(r, c)`, or `None` if it deletes it.
pub open spec fn edit_key(e: GridEdit, r: int, c: int) -> Option<(int, int)> {
    match e {
        GridEdit::Delete { axis, start, count } => match delete_line(
            start as int,
            count as int,
            line_of(axis, r, c),
        ) {
            Some(l) => Some(with_line(axis, r, c, l)),
            None => None,
        },
        GridEdit::Insert { axis, start, count } => {
            let l = shift_line(start as int, count as int, line_of(axis, r, c));
            if l <= last_line(axis) {
                Some(with_line(axis, r, c, l))
            } else {
                None
            }
        },
        GridEdit::Move { axis, start, count, delta } => Some(
            with_line(axis, r, c, move_line(start as int, count as int, delta as int, line_of(axis, r, c))),
        ),
        _ => Some((r, c)),
    }
}

/// Which position the edit moves to `(r, c)`.
pub open spec fn edit_source(e: GridEdit, r: int, c: int) -> (int, int) {
    match e {
        GridEdit::Delete { axis, start, count } => with_line(
            axis,
            r,
            c,
            delete_line_source(start as int, count as int, line_of(axis, r, c)),
        ),
        GridEdit::Insert { axis, start, count } => with_line(
            axis,
            r,
            c,
            insert_line_source(start as int, count as int, line_of(axis, r, c)),
        ),
        GridEdit::Move { axis, start, count, delta } => with_line(
            axis,
            r,
            c,
            move_line(start + delta, count as int, -delta, line_of(axis, r, c)),
        ),
        _ => (r, c),
    }
}

/// `s` with its content cleared.
pub open spec fn without_content(s: Slot) -> Slot {
    Slot { cell: Cell { content: CellContent::Empty, style: s.cell.style }, link: s.link }
}

/// What the edit makes of slot `s` found at `(r, c)`.
pub open spec fn edit_value(e: GridEdit, r: int, c: int, s: Slot) -> Slot {
    match e {
        GridEdit::ClearContents { area } => if contains(area, r, c) {
            Slot { cell: Cell { content: CellContent::Empty, style: s.cell.style }, link: None }
        } else {
            s
        },
        GridEdit::ClearAll { area } => if contains(area, r, c) {
            default_slot()
        } else {
            s
        },
        GridEdit::ClearCovered { region } => if covers(region, r, c) {
            without_content(s)
        } else {
            s
        },
        _ => s,
    }
}

/// The grid after the edit: position `k` holds what the edit made of its source.
pub open spec fn edited_grid(g: Map<(int, int), Slot>, e: GridEdit) -> Map<(int, int), Slot> {
    Map::new(
        |k: (int, int)| true,
        |k: (int, int)|
            {
                let src = edit_source(e, k.0, k.1);
                if edit_key(e, src.0, src.1) == Some(k) {
                    edit_value(e, src.0, src.1, g[src])
                } else {
                    default_slot()
                }
            },
    )
}

pub proof fn lemma_move_line_inverse(start: int, count: int, delta: int, l: int)
    requires
        1 <= count,
    ensures
        move_line(start + delta, count, -delta, move_line(start, count, delta, l)) == l,
        move_line(start, count, delta, move_line(start + delta, count, -delta, l)) == l,
{
    assert(start + delta + (-delta) == start);
}

/// The edit sends `(r, c)` to `k` only when `(r, c)` is the source of `k`,
/// and, but for an inserted line, always then.
pub proof fn lemma_edit_source(e: GridEdit, r: int, c: int, k: (int, int))
    requires
        edit_ok(e),
    ensures
        edit_key(e, r, c) == Some(k) ==> edit_source(e, k.0, k.1) == (r, c),
        !(e is Insert) ==> ((edit_key(e, r, c) == Some(k)) == (edit_source(e, k.0, k.1) == (r, c))),
{
    match e {
        GridEdit::Move { axis, start, count, delta } => {
            lemma_move_line_inverse(start as int, count as int, delta as int, line_of(axis, r, c));
            lemma_move_line_inverse(start as int, count as int, delta as int, line_of(axis, k.0, k.1));
        },
        _ => {},
    }
}

/// The edit keeps positions inside the sheet.
pub proof fn lemma_edit_key_valid(e: GridEdit, r: int, c: int)
    requires
        edit_ok(e),
        valid_position(r, c),
    ensures
        edit_key(e, r, c) matches Some(k) ==> valid_position(k.0, k.1),
{
}


/// The entry that the edit makes of `x`, if it keeps it.
pub open spec fn edit_entry(e: GridEdit, x: CellEntry) -> Option<CellEntry> {
    match edit_key(e, x.row as int, x.column as int) {
        Some(k) => Some(
            CellEntry {
                row: k.0 as i32,
                column: k.1 as i32,
                slot: edit_value(e, x.row as int, x.column as int, x.slot),
            },
        ),
        None => None,
    }
}

/// The entries after the edit, keeping their order.
pub open spec fn transformed(s: Seq<CellEntry>, e: GridEdit) -> Seq<CellEntry>
    decreases s.len(),
{
    if s.len() == 0 {
        Seq::empty()
    } else {
        let prev = transformed(s.drop_last(), e);
        match edit_entry(e, s.last()) {
            Some(y) => prev.push(y),
            None => prev,
        }
    }
}

pub open spec fn entries_in_sheet(s: Seq<CellEntry>) -> bool {
    forall|i: int| 0 <= i < s.len() ==> valid_position(#[trigger] s[i].row as int, s[i].column as int)
}

/// An untouched slot stays untouched.
pub proof fn lemma_edit_value_default(e: GridEdit, r: int, c: int)
    ensures
        edit_value(e, r, c, default_slot()) == default_slot(),
{
}

/// Every transformed entry comes from an entry before the edit, and sits inside the sheet.
pub proof fn lemma_transformed_origin(s: Seq<CellEntry>, e: GridEdit)
    requires
        edit_ok(e),
        entries_in_sheet(s),
    ensures
        entries_in_sheet(transformed(s, e)),
        forall|j: int|
            0 <= j < transformed(s, e).len() ==> exists|i: int|
                0 <= i < s.len() && edit_key(e, s[i].row as int, s[i].column as int) == Some(
                    (#[trigger] transformed(s, e)[j].row as int, transformed(s, e)[j].column as int),
                ),
    decreases s.len(),
{
    if s.len() > 0 {
        let p = s.drop_last();
        assert(entries_in_sheet(p)) by {
            assert forall|i: int| 0 <= i < p.len() implies valid_position(
                #[trigger] p[i].row as int,
                p[i].column as int,
            ) by {
                assert(p[i] == s[i]);
            }
        }
        lemma_transformed_origin(p, e);
        let x = s.last();
        assert(valid_position(s[s.len() - 1].row as int, s[s.len() - 1].column as int));
        lemma_edit_key_valid(e, x.row as int, x.column as int);
        let t = transformed(s, e);
        let tp = transformed(p, e);
        assert forall|j: int| 0 <= j < t.len() implies exists|i: int|
            0 <= i < s.len() && edit_key(e, s[i].row as int, s[i].column as int) == Some(
                (#[trigger] t[j].row as int, t[j].column as int),
            ) by {
            if j < tp.len() {
                assert(t[j] == tp[j]);
                let i = choose|i: int|
                    0 <= i < p.len() && edit_key(e, p[i].row as int, p[i].column as int) == Some(
                        (tp[j].row as int, tp[j].column as int),
                    );
                assert(s[i] == p[i]);
            } else {
                assert(edit_key(e, s[s.len() - 1].row as int, s[s.len() - 1].column as int) == Some(
                    (t[j].row as int, t[j].column as int),
                ));
            }
        }
        assert forall|j: int| 0 <= j < t.len() implies valid_position(
            #[trigger] t[j].row as int,
            t[j].column as int,
        ) by {
            if j < tp.len() {
                assert(t[j] == tp[j]);
            }
        }
    }
}

/// What a position holds after the edit.
pub proof fn lemma_transformed_lookup(s: Seq<CellEntry>, e: GridEdit, r: int, c: int)
    requires
        edit_ok(e),
        entries_in_sheet(s),
    ensures
        lookup(transformed(s, e), r, c) == edited_grid(grid_of(s), e)[(r, c)],
    decreases s.len(),
{
    let src = edit_source(e, r, c);
    lemma_edit_source(e, src.0, src.1, (r, c));
    if s.len() == 0 {
        lemma_edit_value_default(e, src.0, src.1);
    } else {
        let p = s.drop_last();
        assert(entries_in_sheet(p)) by {
            assert forall|i: int| 0 <= i < p.len() implies valid_position(
                #[trigger] p[i].row as int,
                p[i].column as int,
            ) by {
                assert(p[i] == s[i]);
            }
        }
        lemma_transformed_lookup(p, e, r, c);
        let x = s.last();
        assert(valid_position(s[s.len() - 1].row as int, s[s.len() - 1].column as int));
        lemma_edit_key_valid(e, x.row as int, x.column as int);
        lemma_edit_source(e, x.row as int, x.column as int, (r, c));
        crate::grid::lemma_lookup_push(p, x, src.0, src.1);
        assert(p.push(x) =~= s);
        match edit_entry(e, x) {
            Some(y) => {
                crate::grid::lemma_lookup_push(transformed(p, e), y, r, c);
            },
            None => {},
        }
    }
}

/// The edited entries still sit inside the sheet with no position stored twice.
pub proof fn lemma_transformed_wf(s: Seq<CellEntry>, e: GridEdit)
    requires
        edit_ok(e),
        entries_wf(s),
    ensures
        entries_wf(transformed(s, e)),
    decreases s.len(),
{
    lemma_transformed_origin(s, e);
    if s.len() > 0 {
        let p = s.drop_last();
        assert(entries_wf(p)) by {
            assert forall|i: int, j: int| 0 <= i < j < p.len() implies !has_key(
                #[trigger] p[i],
                #[trigger] p[j].row as int,
                p[j].column as int,
            ) by {
                assert(p[i] == s[i] && p[j] == s[j]);
            }
        }
        lemma_transformed_wf(p, e);
        lemma_transformed_origin(p, e);
        let x = s.last();
        let tp = transformed(p, e);
        let t = transformed(s, e);
        assert(valid_position(s[s.len() - 1].row as int, s[s.len() - 1].column as int));
        lemma_edit_key_valid(e, x.row as int, x.column as int);
        match edit_entry(e, x) {
            Some(y) => {
                assert forall|j: int| 0 <= j < tp.len() implies !has_key(
                    #[trigger] tp[j],
                    y.row as int,
                    y.column as int,
                ) by {
                    let i = choose|i: int|
                        0 <= i < p.len() && edit_key(e, p[i].row as int, p[i].column as int) == Some(
                            (tp[j].row as int, tp[j].column as int),
                        );
                    if has_key(tp[j], y.row as int, y.column as int) {
                        let k = (y.row as int, y.column as int);
                        lemma_edit_source(e, p[i].row as int, p[i].column as int, k);
                        lemma_edit_source(e, x.row as int, x.column as int, k);
                        assert(s[i] == p[i]);
                        assert(has_key(s[i], s[s.len() - 1].row as int, s[s.len() - 1].column as int));
                    }
                }
                crate::grid::lemma_wf_push(tp, y);
            },
            None => {},
        }
    }
}


/// `l` moved by the deletion (exec form of `delete_line`).
fn exec_delete_line(start: i32, count: i32, l: i32) -> (res: Option<i32>)
    requires
        1 <= start,
        1 <= count,
        start + count <= i32::MAX,
        1 <= l,
    ensures
        match delete_line(start as int, count as int, l as int) {
            Some(v) => res == Some(v as i32) && v == v as i32,
            None => res is None,
        },
{
    if l < start {
        Some(l)
    } else if l < start + count {
        None
    } else {
        Some(l - count)
    }
}

/// `l` moved by the insertion, if it stays inside the sheet (exec form of
/// `shift_line` with the sheet's last line `last`).
fn exec_insert_line(start: i32, count: i32, l: i32, last: i32) -> (res: Option<i32>)
    requires
        1 <= start <= last <= LAST_ROW,
        1 <= count <= last,
        1 <= l <= last,
    ensures
        shift_line(start as int, count as int, l as int) <= last ==> res == Some(
            shift_line(start as int, count as int, l as int) as i32,
        ),
        shift_line(start as int, count as int, l as int) > last ==> res is None,
{
    if l < start {
        Some(l)
    } else if l + count <= last {
        Some(l + count)
    } else {
        None
    }
}

/// `l` moved by the block move (exec form of `move_line`).
fn exec_move_line(start: i32, count: i32, delta: i32, l: i32) -> (res: i32)
    requires
        1 <= start,
        1 <= count,
        start + count - 1 <= LAST_ROW,
        1 <= start + delta,
        start + count - 1 + delta <= LAST_ROW,
        1 <= l <= LAST_ROW,
    ensures
        res == move_line(start as int, count as int, delta as int, l as int),
{
    if start <= l && l < start + count {
        l + delta
    } else if delta > 0 && start + count <= l && (l as i64) < start as i64 + count as i64 + delta as i64 {
        l - count
    } else if delta < 0 && (start as i64 + delta as i64) <= l as i64 && l < start {
        l + count
    } else {
        l
    }
}

/// The position `(r, c)` goes to (exec form of `edit_key`).
fn exec_edit_key(e: &GridEdit, r: i32, c: i32) -> (res: Option<(i32, i32)>)
    requires
        edit_ok(*e),
        valid_position(r as int, c as int),
    ensures
        match edit_key(*e, r as int, c as int) {
            Some(k) => res == Some((k.0 as i32, k.1 as i32)) && valid_position(k.0, k.1),
            None => res is None,
        },
{
    proof {
        lemma_edit_key_valid(*e, r as int, c as int);
    }
    match e {
        GridEdit::Delete { axis, start, count } => match axis {
            Axis::Rows => match exec_delete_line(*start, *count, r) {
                Some(l) => Some((l, c)),
                None => None,
            },
            Axis::Columns => match exec_delete_line(*start, *count, c) {
                Some(l) => Some((r, l)),
                None => None,
            },
        },
        GridEdit::Insert { axis, start, count } => match axis {
            Axis::Rows => match exec_insert_line(*start, *count, r, LAST_ROW) {
                Some(l) => Some((l, c)),
                None => None,
            },
            Axis::Columns => match exec_insert_line(*start, *count, c, LAST_COLUMN) {
                Some(l) => Some((r, l)),
                None => None,
            },
        },
        GridEdit::Move { axis, start, count, delta } => match axis {
            Axis::Rows => Some((exec_move_line(*start, *count, *delta, r), c)),
            Axis::Columns => Some((r, exec_move_line(*start, *count, *delta, c))),
        },
        _ => Some((r, c)),
    }
}

/// What the edit makes of slot `s` at `(r, c)` (exec form of `edit_value`).
fn exec_edit_value(e: &GridEdit, r: i32, c: i32, s: &Slot) -> (res: Slot)
    ensures
        res == edit_value(*e, r as int, c as int, *s),
{
    match e {
        GridEdit::ClearContents { area } => {
            if crate::geometry::region_contains(area, r, c) {
                Slot { cell: Cell { content: CellContent::Empty, style: s.cell.style }, link: None }
            } else {
                s.duplicate()
            }
        },
        GridEdit::ClearAll { area } => {
            if crate::geometry::region_contains(area, r, c) {
                new_default_slot()
            } else {
                s.duplicate()
            }
        },
        GridEdit::ClearCovered { region } => {
            if crate::geometry::region_contains(region, r, c) && !(r == region.row && c
                == region.column) {
                Slot {
                    cell: Cell { content: CellContent::Empty, style: s.cell.style },
                    link: crate::types::duplicate_link(&s.link),
                }
            } else {
                s.duplicate()
            }
        },
        _ => s.duplicate(),
    }
}

/// The entries after the edit.
pub fn transform_cells(cells: &Vec<CellEntry>, e: &GridEdit) -> (res: Vec<CellEntry>)
    requires
        edit_ok(*e),
        entries_wf(cells@),
    ensures
        entries_wf(res@),
        grid_of(res@) == edited_grid(grid_of(cells@), *e),
{
    let n = cells.len();
    let mut out: Vec<CellEntry> = Vec::new();
    let mut i: usize = 0;
    while i < n
        invariant
            n == cells@.len(),
            i <= n,
            edit_ok(*e),
            entries_wf(cells@),
            out@ == transformed(cells@.take(i as int), *e),
        decreases n - i,
    {
        let x = &cells[i];
        proof {
            assert(cells@.take(i + 1).drop_last() =~= cells@.take(i as int));
            assert(cells@.take(i + 1).last() == cells@[i as int]);
        }
        match exec_edit_key(e, x.row, x.column) {
            Some(k) => {
                let v = exec_edit_value(e, x.row, x.column, &x.slot);
                out.push(CellEntry { row: k.0, column: k.1, slot: v });
            },
            None => {},
        }
        i = i + 1;
    }
    proof {
        assert(cells@.take(n as int) =~= cells@);
        assert(entries_in_sheet(cells@));
        lemma_transformed_wf(cells@, *e);
        assert forall|k: (int, int)| #[trigger] grid_of(out@)[k] == edited_grid(grid_of(cells@), *e)[k] by {
            lemma_transformed_lookup(cells@, *e, k.0, k.1);
        }
        assert(grid_of(out@) =~= edited_grid(grid_of(cells@), *e));
    }
    out
}

} // verus!
