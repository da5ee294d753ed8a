use vstd::prelude::*;

use crate::types::MergeCell;

verus! {

/// The last row covered by `m`.
pub open spec fn last_row(m: MergeCell) -> int {
    m.row + m.height - 1
}

/// The last column covered by `m`.
pub open spec fn last_column(m: MergeCell) -> int {
    m.column + m.width - 1
}

/// The two rectangles share at least one cell.
pub open spec fn overlaps(a: MergeCell, b: MergeCell) -> bool {
    &&& a.row <= last_row(b)
    &&& b.row <= last_row(a)
    &&& a.column <= last_column(b)
    &&& b.column <= last_column(a)
}

/// Returns true if the two regions share at least one cell.
pub fn regions_intersect(a: &MergeCell, b: &MergeCell) -> (r: bool)
    requires
        i32::MIN <= a.row + a.height - 1 <= i32::MAX,
        i32::MIN <= a.column + a.width - 1 <= i32::MAX,
        i32::MIN <= b.row + b.height - 1 <= i32::MAX,
        i32::MIN <= b.column + b.width - 1 <= i32::MAX,
        i32::MIN <= a.row + a.height <= i32::MAX,
        i32::MIN <= a.column + a.width <= i32::MAX,
        i32::MIN <= b.row + b.height <= i32::MAX,
        i32::MIN <= b.column + b.width <= i32::MAX,
    ensures
        r == overlaps(*a, *b),
{
    let a_row_end = a.row + a.height - 1;
    let a_column_end = a.column + a.width - 1;
    let b_row_end = b.row + b.height - 1;
    let b_column_end = b.column + b.width - 1;
    a.row <= b_row_end && b.row <= a_row_end && a.column <= b_column_end && b.column <= a_column_end
}

} // verus!

verus! {

/// `(r, c)` lies inside the rectangle `m`.
pub open spec fn contains(m: MergeCell, r: int, c: int) -> bool {
    &&& m.row <= r < m.row + m.height
    &&& m.column <= c < m.column + m.width
}

/// `(r, c)` is the anchor (top-left cell) of `m`.
pub open spec fn is_anchor(m: MergeCell, r: int, c: int) -> bool {
    r == m.row && c == m.column
}

/// `(r, c)` is a covered (non-anchor) cell of `m`.
pub open spec fn covers(m: MergeCell, r: int, c: int) -> bool {
    contains(m, r, c) && !is_anchor(m, r, c)
}

/// `(r, c)` lies inside `m` (exec form).
pub fn region_contains(m: &MergeCell, r: i32, c: i32) -> (res: bool)
    ensures
        res == contains(*m, r as int, c as int),
{
    let row_end = m.row as i64 + m.height as i64;
    let column_end = m.column as i64 + m.width as i64;
    m.row <= r && (r as i64) < row_end && m.column <= c && (c as i64) < column_end
}

} // verus!

verus! {

/// A region that can be merged: inside the sheet, at least one cell in each
/// direction, and more than a single cell.
pub open spec fn region_valid(m: MergeCell) -> bool {
    &&& 1 <= m.row
    &&& 1 <= m.column
    &&& 1 <= m.width
    &&& 1 <= m.height
    &&& !(m.width == 1 && m.height == 1)
    &&& last_row(m) <= crate::types::LAST_ROW
    &&& last_column(m) <= crate::types::LAST_COLUMN
}

/// A list of merged regions: each valid, no two sharing a cell.
pub open spec fn regions_wf(ms: Seq<MergeCell>) -> bool {
    &&& forall|i: int| 0 <= i < ms.len() ==> region_valid(#[trigger] ms[i])
    &&& forall|i: int, j: int|
        0 <= i < ms.len() && 0 <= j < ms.len() && i != j ==> !overlaps(#[trigger] ms[i], #[trigger] ms[j])
}

/// `inner` lies entirely inside `outer`.
pub open spec fn region_inside(inner: MergeCell, outer: MergeCell) -> bool {
    &&& outer.row <= inner.row
    &&& last_row(inner) <= last_row(outer)
    &&& outer.column <= inner.column
    &&& last_column(inner) <= last_column(outer)
}

} // verus!
